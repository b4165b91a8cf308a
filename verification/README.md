# handy

The verified core of a local dictation program: it decides what happens between a
hotkey and the text that is pasted. The library is written in Verus, and every
function states what it returns; the laws that span functions are public proof
functions whose names start with `law_`.

## Layout

- `src/`: the library
  - `text`: characters, trimming, searching, replacing
  - `json`: the members of a JSON object, read with `serde_json`
  - `settings`: the settings that the decisions read
  - `app_context`: the application and website that a dictation goes to
  - `tone`: tone rules and the context block of the prompt
  - `preview`: the user's edit of the live preview, and what feeds the preview
  - `reply`: what becomes of a language model's answer
  - `cleanup`: whether, with what and how a transcription is cleaned up
  - `chinese`: conversion between the Chinese scripts, with `ferrous-opencc`
  - `output`: the text to paste and the record of its making
  - `session`: starting and stopping a dictation, step by step
  - `models`: the catalog of cleanup models and the server that holds them
  - `pull`: the progress of a model download
  - `caret`, `ghost`: the text caret and the preview window at it
- `app/`: the program around the library: threads, devices, windows, network.
  The desktop shell is behind the `Host` trait.
- `tests/`: tests of the library

## What is trusted

The contracts of five items are believed, not proved. Each has a doc comment that
says what it claims: `String::push` and `str::to_lowercase` of the standard library
(`text`), `serde_json::from_str` and `serde_json::from_slice` (`json`), and OpenCC
(`chinese`).
