# termaxa

Termaxa gates the commands that an agent wants to run: it judges each of them,
keeps an audit log, reports what happened, and notifies a webhook. This crate is
the part of it that decides about text, written and verified in Verus.

| module | what it holds |
| --- | --- |
| `shell` | splitting a line into commands, the files they write over, command substitution |
| `audit` | the audit log as text: framing, reading the tail, time stamps |
| `report`, `report_text` | the Execution Report: its figures, and its text on a terminal and in Markdown |
| `notify`, `policy` | which notifications are sent, their requests, the probe |
| `ui` | colour, marks, fields, the welcome screen |
| `intent`, `tally`, `text` | intent labels, counting and ranking, characters and strings |

The modules ending in `_laws` state and prove what holds on all inputs: that an
operator outside quotes separates, that a redirection to a file is reported
behind any text that leaves nothing open, that only single quotes hide a command
substitution, that the log gives back what was written to it, that the lines of
a report have a source in the data, that colour changes nothing a reader sees.

`app/` is the ordinary Rust around the library: files, HTTP requests, the
environment, the terminal. It hands plain values in and prints what comes out.
`tests/` runs the library on concrete values.
