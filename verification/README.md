# tpcdaq

A data acquisition core for GET-based TPC readout, with its behaviour stated in contracts and
proved with Verus.

- `src/` is the library. What a frame is, what a fragment holds, which file a frame goes to, what a
  component does about a command, in which order a run is started and stopped, what an operator may
  ask for and what is written down of it: all of it is verified. Properties of whole runs are
  public proof functions whose names begin with `law_`.
- `app/` is the ordinary Rust around the library: sockets, files, processes, threads, JSON, TOML and
  MessagePack, and figures in floating point.
- `tests/` runs the library on concrete values.

The library does no input or output. Where a program alternates between decisions and outside work,
the library holds the decisions as a machine: it says what is to be done next, and takes in what
came of it.

| Program | Decides | Does |
|---|---|---|
| decoder | `decoder::DecoderLoop`, `command::Handler` | `app/decoder_task.rs` |
| graw_writer | `graw_writer::WriterLoop`, `command::Handler` | `app/writer_task.rs` |
| controller | `sequencer::Sequencer`, `controller::Control`, `requests`, `logbook` | `app/rest.rs`, `app/store.rs` |
| graw_replay | `replay::Merge`, `replay::Laps` | `app/replay_run.rs` |
| soak_harness | `harness::Harness`, `report` | `app/soak_run.rs`, `app/soak_stack.rs` |

Three things are believed rather than proved, each where it is used: what `String::push` does
(`src/text.rs`), and that the results of SHA-256 and of reading bytes as text depend on their
arguments alone (`src/logbook.rs`). What is stated of the sequences of a run also rests on their
way to the components, the trait `sequencer::Transport`: its implementation in `app/` is believed to
do, at each call, what the call says and nothing else.
