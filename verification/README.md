# media_transcriber_mcp

An MCP server that transcribes local and remote media (YouTube, Vimeo,
Reddit, Twitter/X, Instagram) with Whisper, and captures screenshots and
scene keyframes of videos with ffmpeg.

- `src/` is the library, verified with Verus: source detection, the yt-dlp,
  ffmpeg and download arguments, the steps of a transcription
  (`transcriber::steps`), SRT writing, reading, filtering and cleaning, the
  lookup of the Whisper model, the choice and order of sampled frames, and
  their Base64 encoding.
- `app/` is the server around it: argument handling, the MCP handlers, and
  the processes, files and Whisper runs that the library's decisions call
  for.
- `tests/` exercise the library on concrete values.
