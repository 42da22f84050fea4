# adb_sync_tool

Keeps a local directory and a directory on an Android device in step over
adb. `ast push <alias>` copies new and newer local files to the device,
`ast pull <alias>` copies new and newer device files back; each alias in
`~/.config/adb-sync-tool/config.json` names the two directories and whether
hidden entries take part.

Layout:

- `src/` is the verified library (Verus): reading `find` and `df` output,
  the push and pull scans that decide what to transfer, the upload and
  download steps, the commands and progress lines, and sizes in KiB.
- `app/` is the program around it: command line, adb and file-system access,
  prompts and progress bars. It drives the library's scans with what it
  reads.
- `tests/` runs the library on concrete values.
