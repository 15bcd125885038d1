# value_codec

A self-describing binary value format (integers, floats, byte and text strings,
arrays, structures, mappings, variants, tables, handles, errors), with a reader,
a writer and the building blocks of a serde serializer and deserializer, proved
with Verus.

## Layout

- `src/model.rs`: the mathematical model. `ValueModel` is what a value denotes;
  `encode` gives its bytes; `take_value` is the parse relation, with three
  outcomes: a value and the number of bytes used, no value, or an input the
  format cannot handle at all.
- `src/take.rs`: the readers, each proved to compute `take_value` (or the part
  of it it stands for), with all three outcomes; `Value::aborts` tells in advance
  whether `Value::take_from` may be called.
- `src/extent.rs`: how far a read looks: never more than one byte past the length
  it reports, and not past it at all unless the last thing it reads is an error
  or a handle (`tight`).
- `src/put.rs`: the compact form of integers, the writers (proved to append
  exactly `encode`) and the size computations.
- `src/values.rs`: the container types and their constructors.
- `src/ser.rs`, `src/de.rs`: what a serializer builds from each part of a data
  structure, and how a deserializer takes each kind of value apart.
- `src/laws.rs`: what holds across functions: a written value is read back
  (for the values on which the reader agrees with the writer), and what the
  serializer builds the deserializer takes back.
- `app/lib.rs`: the parts Verus does not check: writing to any `io::Write`, and
  the serde trait implementations, which hand every decision to the library.
- `tests/`: examples and edge cases, run against the compiled library.
