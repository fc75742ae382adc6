# django_templates

Parsing and rendering of Django templates, verified with Verus.

- `src/lexer` holds the tokens of a template and of the arguments of its tags, and reads the names
  of tags.
- `src/parse` turns the tokens of a template into a tree. `grammar.rs`, `arguments.rs`,
  `condition.rs`, `elements.rs`, `library.rs` and `tags.rs` say what the tree of a template is, and
  `laws.rs` what holds of every tree.
- `src/render` renders a tree. What only Python and the rest of a renderer can do is asked of an
  implementation of `Host`; `renderer.rs`, `inclusion.rs` and `leaves.rs` say what comes of every
  answer, and `laws.rs` what holds whatever the answers are.
- `src/loaders.rs` finds the source of templates by means of an implementation of `Files`.
- `src/integer.rs`, `src/float.rs`, `src/text.rs`, `src/words.rs`, `src/listing.rs` and `src/dict.rs`
  hold what the others are made from.
- `app` connects the library with Python and with the file system.
