# ragit

The verified core of RAGit, an on-device retrieval-augmented chat assistant:
local models served by llama.cpp, documents indexed into per-library stores,
answers grounded in the retrieved passages, and a small team server on the
local network.

The library (`src/`) holds the decisions and the text processing, each with
a contract proved by Verus:

- `catalog`, `hardware`: whether a model fits the machine, Hugging Face
  search requests, reading the GPU query.
- `engine`: the status of the chat and embedding servers and how it moves
  (start, health probe, stop), server arguments and candidate ports.
- `chat`: streamed and complete answers read from the engine's responses.
- `download`: download URLs, progress events and the SHA-256 check.
- `rag`: chunking (sliding windows, sections, entities), document readers
  (HTML, DOCX, PPTX, EPUB, XLSX), job control and progress of indexing runs,
  retrieved context and the conversation sent to the model, store statuses.
- `team`: roles, signed session tokens, registration and login decisions,
  library access.
- `text`: string and number helpers with exact specifications.

Calls into outside crates (base64, hmac/sha2, hex, argon2, serde_json,
quick-xml, zip) go through small trusted wrappers whose contracts state
what those crates document.

`app/` is the shell around it: the SQLite store, process management, HTTP
clients, the vector store, the team server and the commands of the user
interface. `tests/` exercises the library on concrete values.
