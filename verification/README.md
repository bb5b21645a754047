# melba_stt

A Discord bot that joins a voice channel and transcribes what every user says there.
The decisions that the bot takes are a library, verified with Verus; the program
around it talks to Discord, runs the speech model and writes files.

## Layout

`src/` is the verified library:

- `audio`: how packets gather into utterances, and which streams are listened to
- `discord`: which user speaks on which source of the transcribed channel, and what
  to do when the channel reports something
- `receiver`: the speakers of the recorded channel, and what is recorded at each tick
- `recorder` and `wave`: how recordings are cut into wave files and merged
- `nn`: which model is loaded, how its files are read, how audio is cut for it, and how
  its guesses become text
- `stream`, `speech` and `ws`: listening to one user, and the messages for the backend
- `config`: settings and their defaults
- `text` and `ieee`: strings, and floating-point values as bit patterns
- `maps`: the concurrent maps that link sources, users and channels

`app/` is the program: `melba_stt` transcribes, `melba_stt bot` also records. `tests/`
runs the library.

## Configuration

The bot reads `bot.toml` and `secrets.toml` from the directory that it runs in. By
default it uses OpenAI's `tiny` model for Whisper, as if the file said

```toml
model = { repo = { name = "openai/whisper-tiny" } }
```

Another model is used when another repository is named. The filter bank of the model
is read from `melfilters.bytes`.
