# chrometab

A tool for managing the tabs of a Chromium-based browser (Chrome, Brave, Edge)
through the Chrome DevTools Protocol: list and search tabs, find duplicates,
activate, close and open tabs, group them by domain in a full-screen view and
export them as bookmarks.

The library in `src/` is written in Verus and verified:

- `groups`: registrable domains of URLs (through the `psl` public suffix
  list), system pages, and the grouping of tabs into
  duplicates, system pages, domains (largest first) and the rest.
- `wildcard`, `cli`: search patterns, the text listing, the duplicate
  listing, selection numbers such as `2,5-8,10`, and the prompt's answers.
- `tui`, `events`, `screen`: the state of the full-screen view, what every key
  does to it and asks of the browser, and the text of its panels.
- `selection`: the set of selected tab ids.
- `export`: Netscape bookmark and Markdown exports.
- `chrome`: endpoints, DevTools commands and tab filtering.
- `platform`: which browser window to bring to the front.
- `text`: character-level helpers the rest is built on.

`app/` holds the program around it: command-line parsing, HTTP and WebSocket
traffic, the terminal, and window activation.
