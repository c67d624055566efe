# parquet_format

The Parquet file format of a query engine, as a library verified with Verus. It decides
where the metadata of a file lies, what the metadata says about a table, how writers are
configured, and which files a write produces. Every function states what it returns, and
Verus proves it, given what the items that call other crates state of them.

The library makes no requests. A fetch and a write are steps: the library says what to read
or write next, the caller does it and hands in what came of it.

| Module | What it holds |
| --- | --- |
| `footer` | finding and decoding the metadata of a file |
| `compact` | which encoded metadata can be handed to the decoder |
| `metadata` | the schema and the statistics of a file, from its metadata |
| `embedded` | which metadata can be turned into a schema |
| `tree` | walking a tree of columns |
| `statistics`, `accumulator` | statistics of a table from row groups |
| `schema` | clearing the metadata of schemas, and merging them |
| `settings`, `properties`, `config` | the settings of writers |
| `sink`, `path`, `write` | the files of a write, and its course |
| `format` | the format, and what it overrides of a session |
| `text`, `error` | decimal numbers and other text; errors |

What the crates `arrow`, `base64`, `bytes`, `chrono`, `hashbrown`, `object_store`, `parquet`
and `rand` do is taken from them. The items that state what they do are marked
`#[verifier::external_body]` or `assume_specification`, and their comments say what is claimed.
Nothing proves these claims. Where one of the crates would panic on an input, a function of
the library tests beforehand that it does not. Memory and stack are taken to be large enough,
and the clock not to be set before 1970.

`app/` reads and writes files in an object store by these steps.
