# localreview_desktop

The decision core of a desktop application for reviewing code: what a review shows, what may be
written on it, when it is out of date, and what another host or another process may ask for.

The library under `src/` is written in Verus. Every function states in its contract what it
returns, and Verus proves it. It holds no file, socket, process, clock or window: it takes what
was read as plain values and answers with plain values or with the next step to take.

| Modules | What they decide |
| --- | --- |
| `document`, `source_lines`, `line_texts`, `canonical`, `full_file`, `rows` | the rows of a captured diff and of a whole file, with their byte and line positions |
| `presentation`, `presentation_cache`, `cache`, `cache_keys`, `present`, `difftastic`, `jobs`, `job_runs` | windows on those rows, what is kept of them, structural diffs, and which request is the newest |
| `annotations`, `saving`, `drafts`, `history`, `sessions`, `ownership`, `ui_state` | annotations, checkpoints, review rounds and what the window remembers of them |
| `prompt`, `finish`, `copies`, `contexts`, `editor` | what leaves a review: prompts, submissions, copied text, links, attributions and editors |
| `workspace`, `repositories`, `review`, `settings`, `refresh`, `events`, `flows` | workspaces, their repositories, and whether there are changes |
| `remote`, `remote_open`, `remote_review`, `remote_refresh`, `remote_source` | workspaces on other hosts |
| `rpc`, `replay`, `errors`, `ids`, `time`, `text`, `text_set`, `split`, `views`, `perf` | commands of other processes and the values that everything is made of |

Facts that span several functions are public proof functions named `law_…`.

What is believed of other crates and of the standard library stands in a few items, each with a
doc comment: identities (`ids`), times (`time`), digests, their text and UTF-8 (`remote_source`),
the text of a set of expanded blocks (`presentation_cache`), and adding a character to a text
(`text`).

`app/` is ordinary Rust around the library: the standard streams to the window, the socket, file
watching, and a helper process, `localreview-service`, that holds the store, Git, GitHub, SSH,
highlighting and the structural diff program. `tests/` runs the library on concrete values.
