# zedra_sessions

Shared agent sessions: the tmux sessions in which coding agents run, seen from
the host that runs them and from the app that lists them.

## Library (`src/`)

Everything here is verified with Verus.

On the host:

- `identity`: the owned name of an agent session, `zedra-<slug>-<hex(id)>`, and
  its decoding.
- `version`: tmux releases, their order, and the supported minimum.
- `records`: the lines of pane and session listings.
- `client`: commands, replies, discovery, and the operations on owned sessions.
- `listing`: the sessions that Zedra owns.
- `detect`: sessions of others whose panes show one coherent agent.
- `shell`: quoting for a shell.
- `error`: what can go wrong, and how it reads.

In the app:

- `agents`: agents and sessions as a host reports them.
- `sessions`: history paired with live shares, grouped by day, laid out in rows.
- `polling`: the polls of live shares and of custom tmux sessions.
- `view`: the sessions view across agents.
- `display`: what cards and lists show.
- `clock`: instants and days.

Below both: `text`, `number` and `encoding`.

A tmux operation is a function of its arguments and of the replies it has had so
far. It answers with the next command to run, with a command line whose agent is
to be identified, or with its result. Whoever carries it out runs the command,
adds the reply to the list, and asks again.

## Application (`app/`)

Subprocesses, polls and loads over a connection, and element trees for the
views. Nothing here decides what the library decides.

## Tests (`tests/`)

Scenarios on concrete values, against a tmux that the tests stand for.
