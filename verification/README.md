# risingwave

The logic of a few plan nodes and of the flush of uncommitted storage data,
each function with a proved contract.

`src/` is the verified library:

- `bound`, `kafka_range`, `logical_source`, `display`: the source-scan plan
  node, and the push-down of comparisons of the Kafka timestamp column into
  the scan's timestamp range;
- `catalog`, `expr`, `func_dep`: the column, expression and dependency
  descriptions that plan nodes are built from;
- `uncommitted`, `group`, `flush`, `key`, `key_range`, `compactor`: grouping
  uncommitted data by compaction group, cutting the key space of a flush into
  ranges compacted in parallel, and putting their outputs together;
- `version_stats`, `project`: version statistics in the meta store, and the
  build of a projection executor.

`app/` holds what the library cannot hold: protobuf encoding of version
statistics, and the asynchronous running of compactions and executor builds.
`tests/` exercises the library on concrete values.
