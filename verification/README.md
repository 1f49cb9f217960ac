# trimbit

The verified core of Trimbit, a menu bar companion for a local Headroom proxy.

`src/` is a Verus library; every function in it carries a contract that Verus proves:

- `format`: decimal, grouped (`10,112,582`) and short (`10.1M`) forms of counts. The short form
  gives what `f64` division and fixed-precision printing give, modelled exactly in integers, and
  shows a quotient that would print as 1000 in the next unit up (`999,600` is `1M`).
- `ip`: IPv4 and IPv6 address literals and the loopback test.
- `proxy`: which hosts may be contacted, the endpoint URL, limits on responses, error messages,
  cleaning of text received from the proxy, the ranking of models, and the reading of the
  proxy's JSON statistics into a fixed set of fields (credential data is never read).
- `settings`: defaults, validation and repair of settings.
- `state`: the connection state machine, notifications and the clipboard summary.
- `tray`, `updates`, `material`: decisions behind the tray icon, the panel and self-updates.
- `strings`: character classes, trimming, number parsing and string building.

`app/` is the desktop shell (Tauri, HTTP, files, floating-point money figures) around the library.
`tests/` exercise the library from outside.
