# Axeno relay

The relay is an untrusted message broker. It keeps sealed envelopes for mailboxes that are offline,
hands them to live connections, gates certificates for senders, hosts encrypted invite bundles and
carries chunked file transfers. It never sees plaintext.

## Layout

- `src/` is the library: the rules of the relay, each with a contract that Verus proves.
  - `ws`, `protocol`, `state`: what a client frame does to the state and what is answered;
  - `queue_store`, `file_store`, `meta_store`, `table`: what is written to and read from the durable
    tables, decided from the rows that were found;
  - `persistence`, `dotenv`, `tor`, `update_check`, `config`: the state file and the encryption of
    the private keys, settings, the daemon's configuration, release notification;
  - `util`, `text`: validation, hashing, proof of work and text handling;
  - `outside`, `maps`: the calls into other crates and what is taken on trust of each;
  - `queue_laws`, `file_laws`, `ws_laws`: what holds across several operations.
- `tests/` runs the library.
- `app/` is the program: sockets, the database, files, the signing library and background tasks. It
  carries out what the library decides and hands back what came of it.

## How the pieces meet

A connection is a `Session`. `Session::handle_frame` turns a frame into a `Step`: an answer, or work
on the stores or on another connection. The program does the work, and a function of `ws` turns its
result into the answer. The stores plan in the same way: `enqueue`, `store_chunk` and the others
return what to write, and a `*_committed` function counts it once the transaction went through.
