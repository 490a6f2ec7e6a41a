# Open Workbench

A desktop workbench for embedded boards: saved devices, a serial terminal
with recorded logs, firmware workspaces, ADB devices, host file access, quick
command windows, a reverse SSH tunnel and a small MCP server.

The project is in two parts.

- `src/` is the library, verified with Verus. It holds the decisions the
  workbench makes: which port and speed a device opens, what the terminal
  buffer keeps, the names of recorded logs and which names the log page
  accepts, how `adb devices -l` and `ls -la` output is read, the shell quoting
  of device paths, the `ssh` command line of the tunnel, which host paths lie
  under the allowed root (with `..` resolved, and a path that does not exist
  yet checked through its existing part), how listings are ordered, how
  device and window records are saved and removed, how quick commands are
  sent, how the MCP server reads a request line and what it answers, and the
  calendar arithmetic behind every time stamp. Each public function states
  what it returns; the laws that tie functions together are proof functions
  beside them.
- `app/` is the desktop program around it: the Dioxus pages, the files under
  the data directory, the serial port, the processes it starts and the TCP
  server. It hands the library plain values and acts on what comes back.

`tests/` runs the library on concrete values.
