//! A verified core for a `git` shim that forwards invocations from a Windows
//! host to a `git` binary inside WSL.
//!
//! The library holds the pure logic of the shim: translating drive-letter
//! paths to `/mnt/<drive>/...` form on the way in, translating `/mnt/<drive>/`
//! line prefixes back to `<DRIVE>:/` form on the way out, minimal
//! shell-quoting, and assembling the command plan (invocation mode, stdin
//! policy, output-translation policy). The surrounding process plumbing,
//! which spawns the child and moves bytes, lives outside the library.

pub mod ascii;
pub mod winpath;
pub mod wslpath;
pub mod plan;
