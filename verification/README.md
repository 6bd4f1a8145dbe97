# pirelay

A client for a file relay server: it sends files and directories to named
recipients and fetches files from named senders or from a mailbox.

The library (`src/`) holds the client's logic, each function with a contract
proved by Verus:

- `cli`, `send_map`, `connection`: reading the command line (`CLI::Parse_Args`)
  into settings; the files to send by recipient.
- `relay`: the client's identity, request addresses and file identifiers.
- `transfer`: one request or chunks, and the chunked-upload state machine.
- `receive`: whom to ask, what kind of reply came back, and the reading of
  multipart replies.
- `text`, `decimal`: the character-level operations the above are written in.

The program (`app/`) does the input and output: process arguments, HTTP
requests, the file system and messages.
