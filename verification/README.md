# log_stream_gc

Deletes CloudWatch log streams that have outlived their log group's retention period.

For each log group with a retention period, log streams created before a cutoff date are
deleted. The cutoff date lies as many days back as the retention period has, times a multiplier
(2 by default). Log groups without a retention period are skipped; patterns on the names narrow
the choice further. A dry run deletes nothing.

## Layout

- `src/` decides and computes, and is verified with Verus. It sends nothing.
  - `logs`, `pattern`: which log groups a run takes.
  - `multiplier`, `rounding`, `date`: how many days log streams are kept, and dates as day numbers.
  - `stream`: what is done with one log stream.
  - `group`: the cutoff date of a log group, and the pass over its log streams.
  - `batch`: the log groups of a batch, one after the other.
  - `run`, `tally`: the run over all log groups, and its counters.
  - `sweep`: how many log streams of a log group are examined at a time.
  - `permits`: how many deletions are in flight.
  - `config`, `args`: settings, and checks of command line values.
  - `error`, `decimal`: failures and their messages.
  - `laws`, `whole_run`: what holds of the library as a whole, and of whole runs.
  - `sequences`: sequences joined end to end.
- `app/` is the command line tool and the Lambda handler. It sends the requests that the library
  asks for, and hands back what came of them.
- `tests/` runs the library on concrete values.

The calendar is `chrono`'s and the regular expressions are `regex`'s. What is claimed of them
without proof stands at the functions marked `external_body` in `date`, `pattern` and `args`.
