# voice2text

A push-to-talk dictation tool: a hotkey starts recording, a second one stops
it, the recording is transcribed by a local Whisper server and the text is
pasted where the cursor is.

`src/` is the verified library:

- `recorder` — the recording thread's state machine and the handle that
  talks to that thread over channels;
- `session` — whether the user interface has a recording running, and the
  refusals of its commands;
- `audio` — mixing interleaved frames down to one channel and averaging
  input windows when resampling;
- `text` — the transcript clean-up and decimal numbers;
- `whisper` — the line protocol spoken with the recogniser and the checks
  around a transcription;
- `cloud` — the settings and the placeholder client of the cloud service.

`app/` is the desktop shell around it: the tray, the hotkeys, the audio
device, the recogniser process, the clipboard and the WAV file.
