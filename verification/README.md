# yt-gtk

A desktop client for YouTube: a feed of subscriptions, search, a watch-later list with downloads,
summaries, transcripts and comments.

The library under `src/` holds the rules of the program and is verified with Verus. It does no
input or output: it takes what was read and gives what is to be done.

- `text`, `paths`, `ids`, `order`, `time`, `urls`: texts, file names, sets of IDs, times
- `data`: videos
- `cache`: the layout and the upkeep of the cache, runs of yt-dlp, subtitles and transcripts
- `feed`: channels, the answers of the YouTube Data API, Atom feeds, retries, comments
- `player`: the command lines of mpv, its replies, chapters
- `summary`, `gemini`, `config`: summaries by Gemini and OpenRouter
- `frogpoints`: the points that refreshes and leisure cost
- `ui`: the state of the window, its cards, the watch-later list, refreshes

Contracts speak of texts as sequences of characters and of videos by their views. What is not
proved is what other crates do; the functions that call them say in their comments what is taken
for granted.

The program under `app/` reads and writes files, runs the other programs, talks to the services
and shows the window with GTK 4 and libadwaita.
