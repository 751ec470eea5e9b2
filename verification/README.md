# colmsg

`colmsg` saves the messages of the Sakurazaka46, Hinatazaka46, Nogizaka46,
Asuka Saito, Mai Shiraishi and yodel message apps to local files.

The library in `src/` holds the decisions and formats of the tool, each with
a contract that Verus proves:

- `message::file`: the files a message is saved as (`<id>_<kind>_<date>_<poster>.<ext>`)
  and what they hold;
- `message::saver`: which members are saved, what saved files tell on a later
  run, what each timeline message writes, and how the timeline is walked page
  by page;
- `http`: every API request as a value (path, query, body), the headers and
  addresses they are sent with;
- `controller`: the services, which of them run, the retry of a refused
  token, and how a run ends;
- `progress`: what the progress display knows and the lines it shows;
- `config`, `dirs`, `datetime`, `text`, `errors`: the configuration file,
  directories, dates, text helpers and errors.

The laws of the library are public proof functions beside the functions they
speak of (`lemma_*`). The calls into chrono, regex, url, shell-words and
console stand behind small wrappers whose contracts say what those crates
document; their results are named where they take more than a few lines to
state.

`app/` is the command itself: options, the configuration file and token
cache on disk, HTTP with reqwest, threads, and the terminal. `tests/` runs the
library on concrete values.
