# scry

A workspace server keeps files and folders with versions, indexes them for full-text and vector
search, lets clients edit them through handles, tells subscribers of changes, and can be mounted as
a file system. This project holds its rules as a verified library, and the programs around it.

* `src/` is the library. Verus proves every function against its contract. It computes on plain
  values: rows that were read, bytes that came in, the time. Where work on the database, the disk or
  the network alternates with decisions, a small state machine says what comes next (`commit`,
  `node_indexing`, `subscription`, `mount_fs`, `refs`).
* `tests/` run the library.
* `app/` is the daemon `scryd` and the mount `scry-fuse`: SQL, files, sockets, command lines. The
  gRPC bindings are generated elsewhere, and come in through the traits of `app/remote.rs`.

Where to look for what holds of the whole:

* `tree`: the nodes of a workspace stay a tree under every change, and of two writers that have seen
  the same version only one gets through.
* `handle_content`, `handles`: what a read gives back of a write, and what a failed flush leaves.
* `chunking`, `file_indexing`, `committed`: every byte of a text is in a chunk, but for white space
  before the first heading of a Markdown text; a file that was written in pieces is indexed as one
  that was put whole, and where it is a long text, by its two ends.
* `events`, `subscription`: what a subscriber is sent, in which order, without gaps.
* `auth`: what a token opens, and what it does not.
* `refs`, `search`, `jobs`, `catalog`, `content`, `migrations`, `settings`: the laws stand beside
  what they are about.
