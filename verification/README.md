# halka_browser

The core of the Halka desktop browser, verified with Verus.

- `src/` is the verified library:
  - `browser_core`: tabs (`tab_manager`), turning address-bar input into a URL (`navigation`), and the bookmark, history, settings and download records.
  - `ai`: the AI design assistant: the CSS sanitiser (`validator`), the exported implementation prompt (`prompt_export`), the Groq provider's prompts and reply handling (`groq`), and the per-tab undo stack of previews (`preview_history`).
  - `text` and `kv_map`: string operations and an insertion-ordered string map with their specifications.
- `tests/` holds the tests.
- `app/` is the Tauri application around the library: windows and webviews, SQLite, HTTP and serialisation.
