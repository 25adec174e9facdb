# git-viz

An interactive terminal git client: the staging area, the commit history and a
diff pane in which single lines and hunks can be staged and unstaged.

`src/` is a library without a terminal and without a repository. It holds all
that the client decides and computes, each function with a contract that Verus
proves:

| module    | what it holds                                                       |
|-----------|---------------------------------------------------------------------|
| `text`    | trimming, splitting, searching and numbers                          |
| `editor`  | the multi-line editor behind the commit-message popup               |
| `patch`   | diff documents, the hunk under the cursor, and partial patches      |
| `graph`   | the commit graph: lanes, rails and nodes                            |
| `date`    | days to dates, and times by an author's clock                       |
| `oid`     | object ids                                                          |
| `git`     | what is read from a repository, and what is asked of it             |
| `app`     | application state, the panes, and the steps of a reload             |
| `event`   | key dispatch, staging, committing, pasting                          |
| `ui`      | what is on the screen, down to each span of text                    |
| `outside` | the functions of other crates that the rest relies on, and how far  |

Where something has to be read from a repository or done to one, a function
returns a `Step`; what came of it is handed back to the function that goes on
from there.

`app/` is the program around the library: it runs the terminal, reads the
repository and carries the steps out.

The public proof functions state what holds of the library as a whole; each
one's documentation says it in words.
