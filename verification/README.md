# aggregator

Counts web requests by second and by security policy, and writes the last seconds as a JSON
document. `src/` is verified with Verus; `app/` holds the process-wide state around it.

- `json`, `clock`, `sketch`: what `serde_json`, `chrono` and `pdatastructs` do, with contracts.
- `key`, `sorted_map`, `ranking`: keys in order, maps over them, and the order of reports.
- `top`, `bag`, `metric`: frequent values in bounded space, exact counts, distinct values.
- `number`, `settings`: the settings, and how they are read from text.
- `request`, `counters`, `capacity`: what is known of a request, the counters of a second, and
  whether a request fits into them.
- `report`, `aggregated`, `values`: a row of a document, the seconds that are kept, the document.
- `laws`: what holds of the counters and of the aggregation as a whole.

The settings come from `AGGREGATED_SECONDS` (5), `AGGREGATED_TOP` (25) and `AGGREGATED_HLL_SIZE`
(8).
