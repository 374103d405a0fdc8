# backup_home

A daily restic backup of a home directory that checks that what it stored can
be got back, and that keeps replicas of the repository up to date.

- `src/` is the library: what a run does next, what it makes of each reply, and
  everything that it computes on the way. Verus proves the contract of every
  function but the few that call outside crates, which are listed below.
- `app/` is the program: it runs restic, reads and writes files, and asks the
  library what to do.
- `tests/` runs the library on concrete values.

| module | what it is about |
| --- | --- |
| `text`, `sort` | texts: comparing, cutting, joining and ordering them |
| `words` | the words of the password command |
| `snapshot` | the latest snapshot, and copies of one |
| `reservoir`, `dice`, `sample`, `chance` | sampling files, and what a sample tells |
| `pattern`, `manifest`, `digest`, `compare` | restoring a sample and comparing it |
| `outcome` | failures of stages, as of backup or of recovery |
| `config`, `restic` | settings and command lines |
| `plan`, `run`, `promises` | the run: its steps, its state, and what holds of it |
| `logs`, `status`, `report` | what a run leaves behind and says |

The functions named `law_...` state what holds of the library as a whole: that
sampling is uniform, that a failed test never blocks the backup, that a run
ends, that no failure is dropped, and the like.

Outside the proofs stand the contracts of the calls into `chrono` (reading a
time), `serde_json` (reading a record), `rand` (drawing a number), `sha2` (the
digest), and of `String::push`. Each is a small function whose comment says
what is taken for granted.
