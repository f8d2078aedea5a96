# inference_bridge

The decision logic of a desktop bridge that runs local llama.cpp models
behind an OpenAI-compatible API, written in Verus with its contracts
proved.

* `src/` — the verified library: launch command lines and their checks,
  the llama-server stream decoders, chat-turn preparation, the download
  job lifecycle and its restore after a restart, Hugging Face metadata
  handling, runtime release selection and archive unpacking rules, image
  generation readiness and job resolution, context-window management,
  and the settings and status views.
* `tests/` — tests run against the compiled library.
* `app/` — the unverified shell: files on disk, configuration and record
  formats, floating-point figures, and the loops that feed streamed bytes
  to the library's decoders.
