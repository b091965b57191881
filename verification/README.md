# MatrixCode

The verified core of a terminal coding agent: a line editor and its commands, a store of sessions,
and a journal that applies changes to the files of a workspace as transactions, which can be undone
and redone without ever overwriting what somebody else has changed.

## How it is laid out

`src/` is the library, verified with [Verus](https://github.com/verus-lang/verus).

| modules | what they hold |
| --- | --- |
| `text`, `numbers`, `paths`, `io` | strings and their bytes, notation of numbers, paths as text, errors |
| `input`, `command`, `app`, `tui`, `cli` | the line editor, the commands, the program, the screen, the arguments |
| `history`, `journal`, `operation`, `course` | transactions, the steps of an operation on the journal, the operations, and what may follow what in them |
| `disk`, `guarantees`, `refusals`, `keeping`, `recovery`, `order`, `ending` | a model of the disk, and what the journal guarantees on it, whatever fails |
| `progress`, `succession`, `answers`, `mending` | what the journal guarantees where nothing fails |
| `fsutil`, `replacement`, `atomicity` | replacing, reading and comparing files, and what replacements guarantee |
| `carrying` | that replacements do what the models of the disk say of them |
| `session`, `session_store`, `session_laws` | sessions, the operations on their store, and what the store guarantees |
| `bench` | what a benchmark of the program decides and computes |

The library does no input or output. An operation that needs the file system says what it wants
done (`request`) and goes on with what came of it (`resume`). The laws speak of runs on a model of
the disk, in which a request does what it asks for or fails in the ways that the model names:
`disk` for the journal, `session_laws` for the sessions, `atomicity` for single files. Where such a
request is itself a replacement of a file, `carrying` derives what the model says of it from the
steps of the replacement. What a file system does beyond these models is outside the laws.

`app/` is the program around the library: it performs the requests, draws the screen, and turns
records into text and back. `tests/` runs the library against a file system in memory.
