# demovid

A command-line tool for producing demo videos with ffmpeg: it probes clips, extracts
frames, renders narration onto clips and assembles them into one video.

- `src/` is the verified library (Verus): the ffmpeg and ffprobe command lines, the
  filter graphs, the concat manifest and its quoting, the parse of ffprobe's JSON report
  (through serde_json) and what is read from it, file-name selection and order, and
  the checks and choices the commands make.
- `app/` is the program around it: argument parsing, running the processes, the file
  system, JSON output, and the decisions on fractional durations.
- `tests/` runs the library on concrete inputs.
