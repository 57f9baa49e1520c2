# path_ratchet

Prevent path traversal by construction.

Pushing user input onto a directory path lets an absolute input replace the
directory and a `..` climb out of it. This library checks paths when they are
built:

- `SingleComponentPathBuf` / `SingleComponentPath`: exactly one file or
  directory name, possibly with `.` around it (`foo`, `./bar.txt`, `foo/`);
- `MultiComponentPathBuf` / `MultiComponentPath`: a relative path made of names
  and `.` only (`foo/bar.txt`);

and `PushPathComponent` extends a path by such values alone.

```rust
use path_ratchet::prelude::{PushPathComponent, SingleComponentPathBuf};

let user_input = "/etc/shadow";
assert!(SingleComponentPathBuf::new(user_input).is_none());

let mut filename = b"/tmp".to_vec();
filename.push_component(SingleComponentPathBuf::new("notes.txt").unwrap().as_path());
assert_eq!(filename, b"/tmp/notes.txt");
```

Paths are Unix byte strings (UTF-8 or not) in POSIX syntax; `new` takes a
`&str`, `from_bytes` any bytes. `src/component.rs` defines their components
(root, `.`, `..`, names) and parses them; `src/push.rs` defines how a path is
extended; `src/laws.rs` proves that pushing a checked value keeps every
component of the base and adds only names (exactly one for a single
component). Equality, order and hashing go by components (`foo/` equals
`foo`), in `src/order.rs` and `src/hashing.rs`. Everything in `src/` is verified
with Verus; the one trusted item feeds bytes to a `std::hash::Hasher`.
`app/lib.rs` offers, on Unix only, the same push on `std::path::PathBuf` and
conversions to and from `std::path::Path`; POSIX syntax is not Windows syntax,
so checked bytes must not go to a Windows `PathBuf`.
