# anthropic-proxy

A proxy that takes requests for language models and hands them on to
OpenAI-compatible upstreams. It knows several upstreams, chooses one by the name
of the model, and tries others where the first one fails.

The library in `src/` holds everything that computes, proved with Verus:

| module | what it decides |
|--------|-----------------|
| `endpoint` | the endpoints below a base URL, and which base URLs are refused |
| `lists` | lists of URLs, terms to ignore and model maps |
| `config`, `sources`, `overrides` | the configuration, from the environment, a file and the command line |
| `routing` | which upstream serves a model, and which may serve in its place |
| `attempts` | in which order upstreams are tried, and what each reply leads to |
| `policy` | what the translation of a request is told, and which model is asked for |
| `listing`, `catalog` | the list of models: configured, fetched and merged |
| `sse`, `progress` | reading and writing server-sent events, and how far a response has come |
| `headers`, `identity` | what a client says of itself and what is handed on |
| `metrics`, `status`, `startup` | what is counted, status codes, files and PIDs |
| `text`, `number`, `order`, `name_map` | texts, numbers and ordered maps |
| `boundary` | the calls into other crates, with what is believed of them |

Each public function states its result in terms of the spec functions beside it;
public proof functions state what holds across several of them.

`app/` is the program around the library: the command line, files, the server and
its requests. It translates nothing: bodies are handed on as they are, with the
name of the model replaced by the one that the upstream is asked for.
