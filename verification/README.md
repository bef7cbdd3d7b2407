# ufc — Universal File Converter

Local, offline, extension-agnostic file conversion. Formats are sniffed
from content (magic bytes and structural probes), a route is resolved to
an adapter, the conversion is written to a temporary file, the result is
re-sniffed and validated, and only then renamed onto a collision-free
final path.

## Layout

- `src/` — the library, verified with Verus:
  - `format`, `detection`, `validation`: format names and aliases, byte
    signature and text sniffing, output validation;
  - `registry`, `router`, `adapters`, `listing`: adapters and their
    routes, route resolution, the default registry (54 routes), the
    sorted route listing;
  - `job`: the steps of a conversion job and the collision-free naming
    policy;
  - `data_adapter`, `markup_adapter`, `image_adapter`, `pdf_adapter`,
    `doc_adapter`: the conversions themselves (JSON/YAML/TOML/CSV,
    Markdown/HTML/text, raster images, PDF text and layout, LibreOffice
    export filters);
  - `text`: string helpers with their specifications.
  Calls into `serde_json`, `serde_yaml`, `toml`, `csv` and
  `pulldown-cmark` go through small trusted wrappers whose contracts name
  what each call returns. The image codecs and the PDF parser and text
  extractor, which can panic on malformed input, are run by the caller
  (under `catch_unwind` in `app/`) and handed to the library, whose
  contracts say what it makes of their answers.
- `app/` — the `ufc` command line: argument parsing, file and process
  I/O, the job loop driven by the library's step function, LibreOffice,
  printpdf, and the image and PDF engines.
- `tests/` — tests of the library.
