# mnemo

`mnemo` records a voice note from the default microphone, transcribes it with ElevenLabs, and
stores the resulting text in Hindsight.

- `src/` is the library: the decisions of the program, each with a contract that Verus proves.
  Settings and their precedence, keys in the macOS Keychain, the course of a recording, the control
  socket and its messages, WAV files, and the requests to the two services are all there. The laws
  that relate several functions are the public proof functions whose names begin with `law_`.
- `app/` is the program around it: the command line, files, processes, sockets, the microphone and
  the network.
- `tests/` runs the library on concrete values.

What is believed without proof are the contracts of a few calls: `String::push`,
`String::from_utf8_lossy` and `str::to_lowercase` of the standard library, reading and writing
objects of strings with `serde_json`, and formatting a moment with `time`.
