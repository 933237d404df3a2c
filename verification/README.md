# chicago_data_bot

A bot that announces newly discovered official datasets of the Chicago data
portal on Bluesky. The library under `src/` is verified with Verus; `app/` is
the command-line program around it (HTTP, SQLite, fonts, files).

- `catalog`: catalog records, the announcement payload, page queries and checks.
- `state`: one catalog scan (pages, duplicate and count checks), the
  announcements it queues, and their record keys.
- `schedule`: the weekday run schedule in America/Chicago and the health checks.
- `clock`: calendar facts from `chrono`/`chrono-tz`, and long dates.
- `render`: styled spans of descriptions, alt text, words for line breaking,
  card alt texts and the post caption. Descriptions that hold an HTML table
  are refused (the post stays pending for manual review).
- `canvas`: the RGB pixel buffer of a card and its PNG encoding.
- `link`: URL parsing and compact link labels.
- `bluesky`: publication decisions (server origin, record lookup, link facet,
  and each step of a publishing run).
- `release`: checks of the updater (tags, checksum manifests, assets, sizes).
- `backup`: which database backups are kept.
- `text`, `order`: text helpers and the code-point order of texts.

Glyph layout and pagination of cards use floating-point font metrics and live
in `app/cards.rs`. Fonts are read at run time from `assets/` (or the directory
named by `BOT_ASSETS`): `NotoSans-Regular.ttf` and `NotoSans-SemiBold.ttf`.
The updater is the same program started under a name containing `updater`.
