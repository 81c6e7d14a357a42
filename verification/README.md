# Kafka InfluxDB statistics

Reads lines in the InfluxDB line protocol from Kafka, keeps the last value of every field of every
uid, and serves statistics on what was seen, what changed and what has fallen silent over HTTP.

The logic is a Verus library: every function states what it returns or changes, and Verus proves
it. The program around it only talks to Kafka, the network, the command line and the log.

## Layout

| Path | Contents |
| --- | --- |
| `src/model.rs` | What a cache holds, and what every operation makes of it |
| `src/cache.rs` | The cache: recording lines, removing what is inactive |
| `src/activity.rs` | Inactivity, counts and ages |
| `src/reports.rs`, `src/order.rs`, `src/ranking.rs` | Reports on uids and fields |
| `src/api.rs` | What every request is answered |
| `src/consumer.rs` | Messages, the lines they hold, and what becomes of each |
| `src/config.rs` | Precision, server mode, settings of the Kafka client |
| `src/stats_utils.rs` | The clock, log lines, the last five timestamps of a field |
| `src/value.rs`, `src/text.rs`, `src/arith.rs`, `src/fold.rs` | Values, text, division, folds |
| `src/invariants.rs`, `src/laws.rs` | What every operation keeps, and what holds over several |
| `app/` | The program |
| `tests/` | Tests of the library |

Floating-point numbers are held as their bits. Reports that show one are made of pieces, and the
program turns the pieces into text.

## Environment variables

| Variable | Purpose |
| --- | --- |
| GAPIT_KAFKASTATS_BROKERS | Brokers to connect to, separated by comma (default: "localhost:9092") |
| GAPIT_KAFKASTATS_TOPICS | Kafka topics to subscribe to, separated by comma (default: "instruments") |
| GAPIT_KAFKASTATS_GROUP_ID | Kafka consumer group name (default: "kafkastats_1") |
| GAPIT_KAFKASTATS_PRECISION | Precision of the timestamps (s or ns, default: s) |
| GAPIT_KAFKASTATS_INACTIVITY_THRESHOLD | How old data must be to be considered inactive (default: 60) |
| GAPIT_KAFKASTATS_OUTPUT_MEASUREMENT | Measurement of the statistics (default: "kafka_influx_statistics") |
| GAPIT_KAFKASTATS_OUTPUT_REPORTED_HOST | Hostname to set as tag (default: none, Telegraf can set default) |
| GAPIT_KAFKASTATS_BIND_IP | IP to bind to (default: "0.0.0.0") |
| GAPIT_KAFKASTATS_PORT | Port to bind to (default: 3005) |
| GAPIT_KAFKASTATS_TLS_ENABLE | Enable TLS |
| GAPIT_KAFKASTATS_TLS_KEYFILE | Path to file containing TLS key |
| GAPIT_KAFKASTATS_TLS_CERTFILE | Path to file containing TLS certificate |
| GAPIT_KAFKASTATS_LOG_CONF | Logging level for rdkafka (default: none) |

## Requests

| Path | Answer |
| --- | --- |
| `/` | All uids with the names of their fields |
| `/uidcount`, `/fieldcount` | How many uids or fields were seen in the last minute |
| `/uniquefieldcount` | How many field names there are |
| `/everything` | All uids with all their fields |
| `/uidinfo/{uid}` | The fields of a uid |
| `/uidinfo/{uid}/{measurement}/{field_name}` | A field of a uid |
| `/stats` | The statistics, as a line in the InfluxDB line protocol |
| `/inactive` | All that is inactive |
| `/inactive/remove` | Removes all that is inactive |
| `/inactive/remove/uid/{uid}` | Removes a uid, if it is inactive |
| `/changed_fields_last_seconds/{seconds}` | How many fields changed lately |
| `/least_changed_fields/{count}` | The fields that changed least |
