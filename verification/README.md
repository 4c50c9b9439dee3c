# tim

A compiler for T.I.M ("This Isn't Markdown"), a small markup language with
deterministic parsing, attribute lines (`{id, class, ...}`), note blocks
(`::note` ... `::`), lists, fenced code blocks and inline links, images,
code, bold and italic text. It turns a `.tim` source into HTML.

The library in `src/` is written in Verus and verified: every public function
carries a contract over a mathematical model of its input and output.

- `tokenizer`, `tokens`: the lexer, specified by `lex` over the source's
  characters; token spans lie within the source and come in order.
- `parser_spec`: the grammar as recursive spec functions (`spec_parse`), with
  an error value for every malformed input.
- `parser`: the executable parser, proved to return exactly `spec_parse`; it
  reads tokens together with the source text they came from.
- `walker`, `template`, `compile`: HTML generation (`document_html`) and the
  page template; `compile_source` runs the whole pipeline.
- `source_map`, `span`, `diagnostics`: byte offsets to lines and columns,
  source snippets and rendered diagnostics.
- `cli`: command-line argument handling as a pure function of the arguments.
- `laws`, `joined`, `progress`, `code_text`: properties of the parser proved
  over the grammar: attributes apply only to the next block, ids are unique
  across a document, neighbouring text is joined into one text node, every
  construct consumes input, and a code block's body is the source text
  between its fences, taken literally.
- `text`: string helpers with contracts (trimming, splitting, number parsing,
  replacement).

`app/` holds the command-line program around the library: reading the input
file, printing, and writing the HTML page.
