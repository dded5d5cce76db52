# Jevernetes

Jevernetes collects Kubernetes and file logs, has them judged by a typed classification service or
by local rules, and reports what matters. Collection is read-only and judgments are advisory. A
long-running controller keeps verdicts and incidents, decides by a policy whom to notify, and can
be inspected through the cluster.

The logic is a library written in Rust and verified with Verus; the program around it is ordinary
Rust.

## Layout

- `src/` is the verified library.
  - `text`, `json`, `form`, `ieee`, `moment`, `pattern`, `digest`, `wire`: texts, values, how they
    look, numbers, times, expressions, hashes, and what goes over a connection.
  - `order`, `rows`, `names`, `memory`: lists in order, tables, lists of names, and a bounded
    memory of verdicts.
  - `events`, `grouping`: bytes become lines, lines become events without credentials, events that
    say the same become groups.
  - `exact`, `parsing`, `shown`: what holds of all of these: JSON texts tell values apart, the
    events of a run follow one another, and what is shown moves no cursor.
  - `jev`, `search`: requests to the service, and what is accepted of its responses.
  - `runtime`, `progress`, `report`: batches of events, the window that is shown, and the report.
  - `kubernetes`: which logs are read, and how a log is followed across reconnects.
  - `controller`: verdicts, policy, incidents, notifications, health and inspection, and what
    holds over everything that was done with its state.
  - `remote`, `protocol`: the other side of an inspection, and that both sides understand each
    other.
  - `tui`: the browser, from input to the cells of the screen.
  - `cli`: what the command line decides.
- `app/` is the program: arguments, signals, files, SQLite, HTTP, the Kubernetes client, the
  terminal, and arithmetic with fractions.
- `tests/` runs the library on given values.

## Reading the contracts

Each data type has a view, a plain mathematical value, and each function says over views what it
returns and changes. Loops that wait for the outside world are machines: a function takes the state
and what happened, and gives the next state and what to do. Properties of the library as a whole are
public proof functions with a sentence each, beside the functions that they speak of.

What is believed and not proved stands in functions marked `external_body`: calls into the standard
library and into `chrono`, `lru`, `regex`, `reqwest`, `serde_json`, `sha2` and `unicode-width`. Each
says what it takes for granted.

Numbers with a fraction are held as their bit pattern and their text. The library compares them by
the bits; they are computed and formatted in `app/figures.rs`.
