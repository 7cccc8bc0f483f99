# rustbin

A minimalist pastebin and URL shortener. The library in `src/` holds everything that the server
decides and computes, and Verus proves that it does what its contracts say. The program in `app/`
adds what a server needs around it: sockets, the database, threads, the font and the HTML pages.

## The library

| Module | What it holds |
|---|---|
| `chars`, `text` | characters and strings: classes, trimming, splitting, numbers |
| `config` | the settings, read from environment variables |
| `error`, `state` | errors, forms, and what rendering a paste depends on |
| `syntax` | syntax highlighting, on top of `syntect` |
| `scheme` | colour schemes, on top of `sublime-color-scheme`, and whether their colours can be computed |
| `lines` | the lines of a text, and cutting a text to a budget |
| `listing` | numbered, anchored lines in chunks that a browser can lay out lazily |
| `links` | which link targets are safe |
| `events`, `markdown` | markdown as events, on top of `pulldown-cmark`, and as safe HTML |
| `highlighter` | pastes as HTML, and the language that a paste is in |
| `canvas`, `glyphs` | an RGB picture, rectangles, glyphs and text in it |
| `styled`, `preview`, `draw` | what a preview image shows, and how it is drawn |
| `cache` | the bounded cache of rendered pastes, on top of `lru` |
| `db`, `extractors` | references, ids and lifetimes of pastes, and the form that creates them |
| `response`, `handlers`, `show` | what clients ask for, and how requests are answered |

What holds of several functions together is stated in the proof functions whose names start with
`law_`. Among them: raw HTML in markdown is handed on as text only
(`markdown::law_no_markup_gets_through`; that text is escaped is `pulldown-cmark`'s part), a paste
that holds a URL always redirects (`show::law_url_pastes_redirect`), for file extensions without a
dot before them a cached page is the one that would be rendered
(`handlers::law_cached_pages_are_right`), and a preview depends only on what it shows
(`draw::law_preview_depends_on_what_it_shows`).

What the library takes from other crates on trust stands in functions marked `external_body`, each
with a comment that says what is claimed of the other crate.

## The program

The program reads its settings from the environment (see `config::EnvVars`) and these files from
its working directory: `migrations/`, `syntaxes.bin`, `theme/gh-dark.sublime-color-scheme`,
`font/DMMono-Regular.ttf`, `assets/favicon.ico` and `assets/logo.png`. The syntaxes must be in a
dump that `syntect::dumps::dump_to_uncompressed_file` wrote. It is linked with the Enry classifier.

| Endpoint | Description |
|---|---|
| `POST /` | creates a paste from a form with `file` or `content`, and `expires_in` |
| `GET /{id}` | the paste, or where it leads if it is a URL |
| `GET /{id}.{ext}` | the paste with a language hint |
| `GET /{id}/raw` | the content as plain text |
| `GET /{id}/preview.png` | a preview image of 1200 by 630 pixels |

A line of more than 256 KiB is shown without highlighting, whatever `HIGHLIGHT_MAX_BYTES` says.

A lifetime in `expires_in` is a number of seconds, a number of hours such as `24h`, or `never`.
