# neuropipe

NeuroPipe is a local voice pipeline: a speech-to-text service, a text-to-speech
service, an assistant that talks to a local model server, a command-line client
and a GTK settings window.

`src/` is the verified library (Verus). It holds the logic of the pipeline:
sentence splitting and text normalisation for the speech engines, tokenizers and
tensor-shape helpers, the configuration document with its lookups, edits and
layering over defaults, the settings and validation rules, the assistant's tool
permissions, history edits and speech bookkeeping, the recording and turn-end
state machine, and the request handling of the speech service. Calls into other
crates (language detection, Unicode normalisation, regular expressions, hashing,
the eSpeak NG phonemizer) stand behind small trusted wrappers whose contracts
say only what those crates document.

`app/` is ordinary Rust around the library: the program entry points, sockets,
files, audio devices, ONNX inference, HTTP, the GTK window, and the
floating-point signal processing.

`tests/` runs the library on concrete values.
