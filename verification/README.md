# sp

A terminal cockpit for one workflow: a base checkout plus several sibling
worktrees that do independent work. It shows how far each worktree is, merges
those that are ready, rebases all of them, and deploys.

The decisions are a verified library (`src/`), written in Verus. The program
around it (`app/`) runs git, reads keys and draws the screen.

## How the library talks to the world

A function that needs something from outside takes a `Conversation`. It replays
the replies that have come in so far. When it needs one more, it returns
`Err(request)`; the program does what the request says, adds the reply and calls
again. `app/world.rs` is all there is to it.

What such a function does is stated as a `Script`: a tree of requests, log lines
and an end. The contract says that the function plays its script, so that the
laws below can be stated of scripts, for every reply that may come.

## Modules

| Module         | What it holds                                                   |
|----------------|-----------------------------------------------------------------|
| `text`         | text as sequences of characters                                 |
| `number`       | decimal numbers                                                 |
| `paths`        | paths, by the rules of the platform                             |
| `conversation` | requests, replies, scripts, and what can be said of them        |
| `util`         | text for one line of a terminal, command lines                  |
| `shell`        | how a shell reads a command line                                |
| `config`       | the settings                                                    |
| `model`        | snapshots of a repository                                       |
| `order`        | the order in which worktrees are shown                          |
| `git`          | reading a repository                                            |
| `porcelain`    | the list of worktrees as git writes it                          |
| `ops`          | merge, merge all, rebase all, deploy                            |
| `safety`       | laws: what is looked at before anything changes                 |
| `undo`         | laws: what is taken back, what is made sure of                  |
| `stash`        | laws: local changes are put aside and brought back              |
| `every`        | laws: operations on every worktree                              |
| `report`       | a snapshot as lines of plain text                               |
| `ui`           | the dashboard as a state machine                                |
| `screen`       | what the dashboard looks like                                   |

## What it rests on

The functions marked `external_body` are taken at their word: display widths from
`unicode-width`, path handling and lossy decoding from the standard library. Each
says in its comment what is claimed of it.

Paths are text to the library. Where the path of the repository is not UTF-8, the
program hands over lossy text and puts the real path back when it performs a
request.
