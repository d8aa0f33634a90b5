# ocrtool

Creates searchable "sandwich" PDFs from Google Cloud Document AI OCR output:
the scanned page image stays as it is and an invisible text layer (render
mode 3) is laid over it, so the text can be selected, copied and searched.

```
ocrtool --input <PDF> --json <shard> [--json <shard> ...] --output <PDF> [--page <N>]
```

## Layout

- `src/` is the verified library (Verus). It holds the logic: the command
  line, code point offsets into the shard text, which tokens are overlaid
  and with which text, WinAnsiEncoding and Helvetica widths, the text content
  stream, and a model of the PDF objects on which the page's MediaBox is
  found and the overlay stream and font are attached.
- `app/` is the program around it: reading the JSON shards (serde), loading
  and saving the PDF (lopdf, whose objects are moved into the library's model
  and back), and the floating-point parts (token boxes in points, page size,
  number formatting and horizontal scaling).
- `tests/` exercises the library.
