# tauri-runtime-cef

The logic of a CEF (Chromium Embedded Framework) runtime for Tauri, written and
proved in Verus.

- `src/` is the library. `channel` and `streaming` are the streaming bodies of
  custom-scheme responses, with the order of the steps that their two sides take on
  the channel and the waker's slot stated in their contracts; `protocol` says what
  holds of such steps however they interleave, and `streaming` draws the conclusions
  for its own types; `request`, `registry`, `headers` and `origin` make a request ready for
  its handler; `response`, `buffered`, `reading`, `html`, `csp` and `csp_laws` are
  what CEF is told and given of a response; `policy`, `permission` and `navigation`
  decide on permissions, popups and navigations; `reload` watches over a webview's
  first page.
- `tests/` runs the library.
- `app/` talks to CEF: it implements CEF's handlers, keeps the process-global
  policies and registries, and starts threads.

What the library believes of other code (`std`'s channel and mutex, and the `http`,
`url`, `kuchikiki`, `html5ever` and `tauri-utils` crates) stands in the contracts of
the functions marked `external_body`, each with a comment that names the code it
speaks of. The laws of `streaming` on wakeups take one thing more for granted: that the
steps of the two sides of a stream happened one after the other, in some row in which
every look found what was there (`interleaves`). Everything else is proved.
