# rusttyobject

RusttyObject turns a GitHub repository into object storage: directories are buckets,
files are objects (those at the top of the repository in the bucket `root`), and
every write is a commit. This crate is its verified core.

- `src/` is the library, checked by Verus: path and bucket-name validation, the object
  listing of a branch with its bucket totals, the plans of uploads, bucket creation and
  pushes, the session store of the browser sign-in, the local index
  (`config.rustyobject`), and the error answers built from GitHub's replies.
  `src/outside.rs` holds the calls into `urlencoding`, `base64`, `sha2`, `mime_guess`,
  `uuid` and the system clock, each with the contract its source shows.
- `app/` is the program around it: the command line, the HTTP server, the GitHub
  requests, the directory walk and the JSON (de)serialization.
- `tests/` exercise the library on concrete values.
