# backup_rs

Backup before reinstalling a Linux system, and restore afterwards (also on
Windows): package lists, settings, browser profiles, virtual machines, the
home folder, extra folders, and Android phones over FTP.

The library under `src/` holds the tool's logic: what to copy, the commands
that copy it, the menus and their answers, the settings and the record of
copied folders, each with a contract proved by Verus. Running programs,
reading folders and the loops that drive them are in `app/`.

- `text`, `order`, `path`: string building, lines, trimming, numbers and
  ordering over character sequences; path pieces through std.
- `keymap`, `manifest`, `config`: the settings file and the record of copied
  folders, as maps with a sorted, duplicate-free representation.
- `util`: colours, the log line, the copy command, the backup path, the
  drive kind, and the step machine that installs the needed tools.
- `backup`: size estimate, package-list commands and the copy jobs.
- `restore`: the restore menu, the choice from it and the run order.
- `adb`: reading `adb` output, the phone's folder, FTP commands, the wait
  for the phone's FTP server, and the Android backup and restore plans.

`app/main.rs` is the command-line program: it reads the environment and the
disk, runs the commands the library builds, and hands the results back.
