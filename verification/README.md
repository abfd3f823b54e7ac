# lsyshell

An SSH terminal client. `src/` is the verified library (Verus): the ANSI
filter and the byte-bounded terminal buffer (`terminal`), character helpers
(`text`), the saved-connection store and its dialog and deferred actions
(`connection`, `shell`), key encoding (`keys`), the recovery of sealed session
passwords with orion (`secret`) and the editor state (`editor`). `app/` is the
egui program around it: windows, the SSH session and its threads, and the JSON
file of saved connections.
