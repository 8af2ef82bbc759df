# sozip

Seek-Optimized ZIP (SOZip) reader: random access within Deflate-compressed files inside
ZIP archives, verified with [Verus](https://github.com/verus-lang/verus).

A SOZip file is a standard ZIP file with a hidden chunk index that tells where in the
compressed data each chunk of an entry begins. Any uncompressed byte can then be had by
decompressing the one chunk that holds it.

## Layout

- `src/` is the verified library. It decides what has to be read from an archive and what
  it means: `index` parses the chunk index, `reader` seeks and reads, `orphan` and
  `archive` find the indexes of an archive, `open` does it for an archive in memory. The
  `*_laws` modules state what holds of all of them.
- `app/` reads: `Read + Seek` and `open` over files and other sources, and the messages
  of the errors.
- `tests/` runs the library on concrete archives.

## What is trusted

Decompression (`flate2`), the central directory (`zip`) and lossy UTF-8 decoding (`std`)
are called behind small functions whose contracts are believed: see `inflate`,
`directory` and the top of `orphan`. Errors of `std::io` and of `zip` are carried along
unopened.

Chunks other than the last do not end in a final Deflate block, so a decoder must accept
input that ends at a flush point. `flate2` 1.1.5 does.

## Usage

```rust
let archive = SozipArchive::new(image.clone())?;
let info = archive.entry_info("mydata.gpkg").unwrap();
let mut reader = SozipReader::new(image, info.data_start, info.index.clone());

reader.seek(SeekFrom::Start(1_000_000)).unwrap();
let mut buf = [0u8; 4096];
let count = reader.read(&mut buf)?;
```
