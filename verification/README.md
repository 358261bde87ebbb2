# Cirrus

The verified core of Cirrus, a service that keeps a library of audio files
in a database and streams their audio to a player.

`src/` is a Verus library. Each function states what it does in its
contract, and the proof functions state the properties that hold across
calls:

* `path`: paths and their materialized form (`,a,b,`), by which a library
  and everything below it are found.
* `dto`: the records of libraries, files and tags; a tag made from a file's
  ID3 tag.
* `tag`, `hash`: ID3 dates as UTC timestamps; the bytes and the hash that
  identify a tag.
* `sync`: the plans that bring the stored libraries and files in line with
  the file system: what is new, what is gone, what is kept and what
  changed.
* `frames`: the reader that cuts decoded samples into frames and the
  decisions around the packets made from them.
* `client`: the player's states, its buffer requests, the decoding of the
  fetched samples and the playback from its buffers.
* `crud`, `listing`, `service`: how lookups are chosen, pages of tags, the
  settings and parts of audio data.

`tests/` runs the library on concrete values. `app/` is the command-line
program around it: settings, database, file system and audio decoding.
It reads the ID3 tags of audio files with the `id3` crate, which reads
them from AIFF files as from others.
