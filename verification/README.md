# zad_al_muslim

The core of the Zad al-Muslim desktop companion (daily Quran memorisation and
Riyadh al-Salihin hadith reminders), written in Verus with its contracts and
laws proved.

- `src/` — the verified library: JSON model (`json`), text helpers (`text`),
  the two settings stores (`config`), day stamps (`clock`), the reminder
  orchestrator and its timer steps (`orchestrator`), the hadith / Quran
  catalogue and search (`data_loader`), the hadith window decisions
  (`windows`), the command logic (`ipc`), backup and restore (`backup`), the
  tray menu (`tray`), start-up and tick effects (`startup`) and log rotation
  (`logfile`).
- `tests/` — tests run against the compiled library.
- `app/` — the Tauri shell: windows, tray icon, timer task, dialogs, files and
  logging, calling the library for every decision.
