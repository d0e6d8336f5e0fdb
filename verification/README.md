# aigov

`aigov` inspects and modifies OOXML Office documents (DOCX): it reads and
writes packages, core, extended and custom metadata, replaces text across
Word runs without touching markup, embeds hidden AI usage policies, and
records sources in custom properties.

The library in `src/` is written in Verus. Each operation carries a
contract stated over mathematical models (parts as a map from names to
bytes, metadata as views of its fields, XML as a sequence of markup
events), and Verus proves the code against it. The calls into `quick-xml`,
`zip`, `file-format` and the standard library's case mapping sit behind a
small set of trusted wrappers whose contracts say what those crates do.

Properties that relate several operations are proof functions named
`law_*`. Among them: generated core, extended and custom properties read back as
the metadata they were made from, including values with `&`, `<`, `>`,
quotes or carriage returns, which are written escaped and read back through
the references the reader reports (heading pair names and titles of parts
excepted: they are read as vector items, where references are not read);
writing the same metadata twice registers the custom properties once; a saved package reads back as its parts; and a
policy injected into a document reads back and can be removed again, for
prompts that need no escaping (the policy scan reads only the text events
of a paragraph, not its references). The laws about reading rest on stated
premises about the XML reader: how it splits text at references, and what
resolving the predefined entities gives.

Editing a document's archive entry by entry (recording a source in its
custom properties, listing its entries, choosing what to extract) is in
`archive_edit`, over the wrapped `zip` calls.

`app/` is the `aigov` command-line tool: argument parsing with `clap`,
file and process I/O, JSON output, and Markdown conversion with `undoc`.
It hands plain values to the library and writes back what it returns.

`tests/` exercises the library through its public interface.
