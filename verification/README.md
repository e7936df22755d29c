# llm-local-infra-lab

Static analysis of a local language model's metadata — its `config.json`
and its `model.safetensors.index.json` — into a precision-aware memory
plan, without downloading any weights.

The library (`src/`) is verified with Verus:

- `tensor_classifier` — classifies each tensor into a module by its name
  and tallies the modules of an index;
- `safetensors_index` — the tensor → shard map, kept in ascending name
  order, with tensor, shard and per-shard counts;
- `model_config` — normalises a decoded configuration (layer-kind
  tallies, defaults, the layer-count check);
- `precision` — precisions and the parsing of a precision list;
- `memory_planner` — exact weight sizes per precision and the key/value
  cache of the full-attention layers;
- `report` — the text of the reports (thousands separators, the config,
  index and markdown plan summaries);
- `text` — character-level helpers and their specifications.

`app/` is the command-line front end: argument parsing, file reading, JSON
decoding and the floating-point figures of the reports.
