# creamlinux

The decisions of a DLC-unlocker installer, verified with Verus, apart from
the disk and the network.

- `src/text.rs` — prefix, suffix, infix, White_Space trimming, ASCII
  case-blind comparison and path file names over the characters of strings;
  std's Unicode lower-casing and UTF-8 decoding behind trusted wrappers.
- `src/pe.rs` — reading PE images: the machine type and the import names.
- `src/proxy.rs` — choosing the DLL name that Koaloader poses as.
- `src/config.rs` — the ScreamAPI configuration and where it is kept.
- `src/screamapi.rs` — release assets, archive entries, EOS SDK DLLs,
  backups and the ScreamAPI DLLs that replace them.
- `app/` — directory walks, file reads and writes, HTTP, zip and JSON, each
  handing plain values to the library.
