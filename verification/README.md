# hydrate_data

The data model of an asset pipeline, verified with Verus: schemas and schema sets,
property values, assets with prototype inheritance held in a data set, standalone
objects, diffs between data sets, typed field accessors, path references, the JSON
storage forms of assets, objects and meta files, and property hashing.

## Layout

- `src/` is the verified library. Each module states its behaviour over mathematical
  models (`Map`, `Seq`, `Set` views of the data) and proves it:
  - `ids`, `path`, `schema`, `schema_set`, `value`, `prop_map`, `ordered_set`: the basic
    types and their models;
  - `data_set`, `single_object`, `data_container`, `property_util`: reading and writing
    properties, null overrides, override behaviours and dynamic array / map entries;
  - `data_set_laws`: laws relating those operations (a read gives back what a write
    wrote, removing an entry undoes adding it, ...);
  - `diff`: diffs between assets and data sets, with apply/revert laws;
  - `field_wrappers`, `field_refs`: typed accessors and read-only field views;
  - `path_reference`: `namespace://path#importable` references;
  - `json_storage`, `json_round_trip`: the stored JSON forms and their round-trip laws;
  - `property_hash`, `hash_laws`: property hashing and its laws.
- `tests/` runs the library on concrete values.
- `app/` holds what the verifier does not take: JSON text through `serde_json`, the
  file-system namespace resolver, and field handles shared through `Rc<RefCell<..>>`.

Calls into `uuid`, `base64` and `siphasher` stand behind small trusted wrappers whose
contracts say what those crates document.
