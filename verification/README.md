# bedrock_repacker

Reads encrypted MSIX-VC (GDK) packages and extracts their files. The library under `src/` is
verified with Verus; the program under `app/` downloads a package, carries out what the library
plans, and packs the files into a 7z archive.

| Module | What it holds |
| --- | --- |
| `cipher`, `decoder`, `xts_laws` | AES-128 blocks, XTS decryption with ciphertext stealing, and that encryption and decryption undo each other |
| `key`, `key_laws`, `selection` | reading, finding and choosing content keys |
| `hexadecimal`, `guid`, `text` | digits, GUIDs and texts |
| `hash_tree` | the size of the hash tree, and where the entry of a block stands |
| `record`, `layout`, `tables` | the tables of a package, read by a layout that is given as a value |
| `stream`, `stream_laws` | an opened package and the order of its parts |
| `plan`, `plan_laws` | one job for each file |
| `extract`, `extract_laws` | the extraction of one file step by step, and that a run writes exactly the file |
| `reading` | filling a buffer by short reads |
| `repack` | file names and the command lines of the archiver |

Block cipher, hexadecimal decoding and GUIDs come from the crates `aes`, `hex` and `uuid`; the
functions that call them say in their doc comments what is believed of these crates. The places
of the numbers in a package stand in `app/format.rs`.
