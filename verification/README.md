# backend

The verified core of a Matter home controller, written in Verus.

- `src/` is the library. Its functions carry contracts that Verus proves, except a
  few small wrappers around the hash, base64, hex and path functions they call, whose
  contracts are trusted and say what those functions do. The library covers
  scene layers and the light control in force (`scene_stack_entry`, `scene_stack`,
  `controls`), the registry lookups they use (`assets`, `keyed`, `target_map`), value
  and status texts (`format`, `display`, `device_status`), Thread diagnostics decoding
  and extended addresses (`thread`), OTA version lists, image paths and checksums
  (`ota`), asset names and files (`asset_loader`), subscription paths and the startup
  event filter (`subscription`), and the table of device connections
  (`connection_table`).
- `tests/` runs the library on concrete values.
- `app/` is a small command-line program around the library: it fetches OTA data
  over HTTP, keeps images and asset files on disk and reads the Thread border
  router's address map.
