# optionsbot

A Discord bot that keeps a journal of option trades (cash-secured puts and
covered calls) per user: open a position, close, expire, roll or split its
current contract, edit it, and export everything as CSV.

- `src/` is the verified library (Verus): reading numbers and dates typed by
  users, the calendar through chrono, the position model and every edit the
  commands make, the user's book of positions with its selection, the CSV rows
  and their date order, and the bot's chat replies.
- `app/` is the bot around it: the command framework (poise/serenity), the
  pickledb files, serde records, float amounts and the gateway loop.
- `tests/` runs the library on concrete values.
