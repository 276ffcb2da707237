# fapt

Reading Debian/Ubuntu package metadata, with its behaviour stated in
contracts and proved by Verus.

- `src/` is the verified library: control-file paragraphs (`rfc822`,
  `sections`, `stanza`), dependency relations (`deps`, `arch`), maintainer
  identities (`ident`), sources lists (`sources_list`, `classic_sources_list`),
  release indices and their checksums (`release`, `checksum`, `checksums`,
  `lists`), whole packages and the paragraphs of listings (`package`, `vcs`, `blocks`), dependency graphs
  (`dep_graph`, `package_list`), build rules (`ninja`) and the decisions of
  downloading release indices, and gzip decompression of listings
  (`fetch`, `signing`, `checksum`).
- `app/` is the `fapt` command around it: argument handling, HTTP,
  reading and writing files, and OpenPGP checking with gpgrv.
- `tests/` exercises the library on concrete inputs.
