# qwen_studio

The verified core of a desktop chat client for Qwen and compatible model
endpoints, with an agent toolbox that works inside a workspace folder.

`src/` is written in Verus. Each public function has a contract, stated over
spec functions and views, and Verus proves it:

- `protocols`, `chat`, `sse`: the request bodies for the chat, Anthropic and
  Responses protocols (cache breakpoints included), what to do after a refused
  request, and how a server-sent event stream becomes events and usage figures.
- `tools`, `readonly`, `write`, `skills`, `walk`, `fmt`, `sort`: the tools
  (list, read, glob, grep, write, edit, patch, todowrite, skill) as pure steps
  over what the file system answers.
- `sandbox`, `workspace`: resolving a path inside the workspace, link by link,
  as a state machine that the caller feeds with the file system's answers.
- `node`: the decisions of the bridge to the Node tool runtime (routing,
  timeouts, handshakes, fallback between `node` candidates).
- `state`, `models`, `files`, `json`, `text`, `pattern`: shared pieces.

Calls into `regex`, `serde_json` and a few std text functions sit behind small
trusted wrappers, each with a doc comment that says what is assumed of it.

`app/` is the unverified shell: the Tauri commands, HTTP, processes, the file
system and timers. It performs the actions that `src/` decides, and feeds the
results back in.

`tests/` runs the library on concrete values.
