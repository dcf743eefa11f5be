# ironclaw

Three pieces of an assistant's backbone, written in Verus and proved:

- `knowledge_wiki` and `wiki_tool`: a business knowledge wiki whose source of
  truth is Markdown. Documents have front matter, are cut into chunks, and may
  state facts as subject, predicate and object. The tool synchronizes an index
  with the documents and answers searches, reads and questions for its status.
- `channel_sessions`: setup sessions in which a code is scanned to connect a
  channel.
- `openai_responses`: a provider of language models that speaks the Responses
  protocol and keeps the identifiers of tool calls across tool loops.

`src/` holds what is decided and computed. Every function states what it gives;
laws that relate several functions are proof functions whose names begin with
`law_`. Work that alternates with the outside world, such as a synchronization,
is a step function from events to actions.

Calls into other crates stand behind small functions whose contracts are taken
on trust; each names the function that it calls. They are in `bytes.rs`,
`digest.rs`, `json_text.rs`, `timestamp.rs`, `text.rs`, `wiki_tool/root.rs`,
`channel_sessions/address.rs`, `channel_sessions/session.rs`,
`openai_responses/headers.rs` and `openai_responses/provider.rs`.

The crate is for Unix, and so are the paths of the file system: they are byte
strings, and only a slash parts their names.

`app/` is ordinary Rust around the library: the database, the file system, HTTP,
and the serialized forms of the records. `tests/` runs the library with the real
crates.
