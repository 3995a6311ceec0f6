# overlayfs_fuse

An overlay filesystem in user space: a directory that is only read lies under one that
takes all changes, and both are shown as one at a mount point. Deletions are recorded as
`.wh.<name>` markers. When the overlay is closed, the changes are kept, discarded, merged
into the lower directory, or merged into a copy of it that then takes its place.

The library is verified with Verus. It never touches the disk: an operation is a function
from the replies received so far to the next request, to an error code, or to its result.
Whoever drives it performs the request, appends the reply and calls it again:

```rust
let mut replies: Vec<Reply> = Vec::new();
loop {
    let mut tape = Tape::new(&replies);
    match operation(&mut tape) {
        Ok(value) => break Ok(value),
        Err(Stop::Fail(code)) => break Err(code),
        Err(Stop::Ask(request)) => {
            let reply = perform(request, tape.load);
            replies.push(reply);
        }
    }
}
```

The bytes that go out with a request, such as the data to be written, are on the tape.

What an operation asks and concludes is stated once, as a `Flow` over a `World`. On a
record of replies, a flow is what the code does; on the model of the disk in `model.rs`, it
is what the operation brings about. The laws are proved of the latter, and
`laws::replaying` shows for every flow that the loop above, run on a disk, ends as the flow
ends on that disk.

| Module | |
|---|---|
| `path`, `text`, `errno` | Paths as bytes, text made of names, error codes |
| `protocol`, `model`, `tree` | Requests and replies; a model of the disk; trees and merging them |
| `inode` | Numbers for paths, counted or hashed |
| `files`, `layers`, `attr` | Where the layers lie; finding, hiding and bringing up entries |
| `fuse_ops`, `file_ops`, `xattr`, `listing` | The operations of the mounted filesystem |
| `filter`, `digest`, `commit`, `walk` | Merging the upper layer into the lower one |
| `overlay` | Mounting, unmounting and the four ways to close an overlay |
| `laws` | What holds of the operations on the disk, and of the library as a whole |

`app/` drives the library on a Linux host, with FUSE; `tests/` drives it on a host in
memory.
