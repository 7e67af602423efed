# cobalt_core

The decision logic of a desktop media downloader (a Tauri application),
written in Verus and proved against its contracts.

- `src/` is the verified library, one module per concern:
  `text` (character-level string operations with specifications), `order`
  (the order of strings and a sort), `settings`, `links` (link parsing and host
  classification), `cobalt` (requests to the media service and its replies),
  `ytdlp` (video ids, formats, error and progress text of yt-dlp), `sizes`
  (yt-dlp sizes in bytes), `progress` (the meaning of yt-dlp's output lines),
  `invocation` (the plan and command line of a local download), `files`
  (output file names), `tasks` (the download queue), `sniffer` (reading
  macOS tool output), `capture` (the resource-capture state and the
  sidecar's messages), `proxy_session` (switching the system proxy and back),
  `processes` (helper programs) and `xinpianchang` (article links and the
  resolver callback).
- `tests/` runs the library on concrete values.
- `app/` is the application around it: Tauri commands, processes, network,
  files, the clipboard and the floating-point progress arithmetic.
