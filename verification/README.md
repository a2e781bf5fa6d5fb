# yoik

A small web service that fetches media: YouTube links go to yt-dlp, magnet,
HTTP(S) and FTP links go to aria2c, and anything else can be searched for as
a torrent on apibay. Finished downloads are moved from a staging directory
into a per-kind media directory, and progress notices are posted to a chat
room.

The decisions live in a Verus-verified library under `src/`:

- `text`: Unicode trimming, ASCII case folding, decimal rendering, `u64` parsing.
- `classify`: which downloader accepts a link (URL parsing by the `url` crate).
- `magnet`: magnet links with form-urlencoded name and trackers, and the proof
  that form-decoding their query gives the name and trackers back.
- `size`: size labels, exactly as `f64` division and `{:.1}` formatting give them.
- `search`: which apibay entries are listed, and their stable ordering by seeders.
- `staging`: staging directory paths.
- `stderr`: the stderr tail quoted in failure notices.
- `plan`: media kinds, target directories, and the download plan for a form.
- `jobs`: downloader and notice command lines, the notices, and what follows a
  downloader run or a file move.

`app/` holds the HTTP server, process spawning and file moves around it.
