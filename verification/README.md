# raspi_observer

A Prometheus exporter for a Raspberry Pi: Docker container metrics, Raspberry
Pi hardware readings and host statistics from `/proc`, served at `/metrics`
(and `GET /health` answers `ok`).

The library in `src/` is verified with Verus. It holds what the exporter
decides and computes:

- `config`: the settings that the environment variables give, with their
  documented defaults, and the server address;
- `text`: lines, words, trimming, prefixes and decimal numbers over the
  characters of a text;
- `counters`: the last readings of kernel counters and the increments that
  exported counters advance by;
- `node`: what `/proc/loadavg`, `/proc/meminfo`, `/proc/net/dev` and
  `/proc/stat` give, against the last readings;
- `history`: the host counters over successive collections;
- `raspi`: the number texts in the outputs of `vcgencmd`, `df` and the
  thermal zone file, the throttling mask, the memory split and the
  hardware information;
- `clock`: uptimes from RFC 3339 start times, as `chrono` counts seconds;
- `docker`, `metrics`: a container's sample from what the Docker engine
  reports, and the updates a collection makes to the container metrics;
- `handlers`: the endpoints and their fixed answers.

`app/` is the server around it: environment and file reading, the Docker
API, process calls, the metric registry and the HTTP routes.
