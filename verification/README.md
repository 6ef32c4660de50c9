# resumark

Resumark turns a Markdown resume into a renderer-independent document model,
checks portable Typst theme files, and renders PDF and SVG pages through Typst.

The library under `src/` is written in Verus and verified:

- `text`: character and UTF-8 helpers (byte lengths, trimming, decimal and
  hexadecimal text) with their specifications.
- `diagnostic`, `model`, `settings`: diagnostics and their report order, the
  document model and its link policy, paper sizes.
- `parser`: pulldown-cmark's event stream, named as plain values and read one
  event at a time; the only trusted code of the Markdown path lives here.
- `events`: the parser's events as Resumark reads them, converted in verified
  code.
- `markdown`: the analysis itself, specified as a function of the source and
  the parser's events; `markdown_laws`, `link_laws` and `range_laws` prove
  what holds of every analysis (errors withhold the document, raw HTML is
  refused, only allowed links are kept, every range lies within the source).
- `theme`: finding, checking and rewriting the JSON manifest of a theme file.
- `render`: bundled themes, the page limit, rendering and export messages.
- `cli`: source locations, diagnostic reports and command-line values.
- `web`: the messages between the browser page and its render worker, the
  page's bookkeeping of that worker (which request waits, which one renders,
  when the render timeout runs, what each worker message leads to), and the
  names of the files the page offers for download.

`app/` is the command-line program: argument parsing, files, serde copies of
the model, theme files with their floating-point controls, and the Typst
world that compiles a theme. It reads the bundled themes from `themes/` and
the bundled fonts from `fonts/` at run time.
