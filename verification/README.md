# mbl2

A loader that serves resource-pack files to the block game in place of the
assets of its APK. The game's `AAsset_*` calls are hooked; for an asset that
the active resource pack replaces, the hooks answer from a buffer in memory.

- `src/` is the verified library: the table of intercepted assets and what
  each hook answers (`table`), the in-memory buffer with `Cursor` semantics
  and the seek of the hooks (`buffer`), the mapping of APK paths to pack
  paths (`pack`), the parsing of `/proc/self/maps` (`maps`, `fields`), the
  order of the signature scan (`signature`), the choice of the game's module
  (`modules`) and lock handling (`lock`).
- `app/` is the in-process side: the constructor, the hooks themselves, the
  PLT and inline hooking, the raw memory reads and the C++ calls.
