# roracache

`roracache` (Read-Only Read-Ahead CACHE) is a FUSE filesystem that shows a cached
version of some other part of your filesystem tree. Accesses to the mount are the
same as accesses to the source, except that there is a lot of aggressive caching
and read-ahead. Special files (devices, pipes, sockets) are not shown.

The library under `src/` holds all the logic, verified with Verus:

- `path`, `path_laws`, `path_map`: paths as bytes, compared component by component,
  and a map that is keyed by them.
- `attr`, `errno`: what is told about files, and the ways in which requests fail.
- `file`, `file_laws`: an open file and the contiguous part of it that is buffered.
- `dingus`: the caches of inodes, lookups, listings and open files, and what every
  operation keeps of them.
- `handles`: opening, reading and closing files.
- `request`: what the worker is asked, and the channel that it is asked through.
- `fs`: the kernel's side.
- `worker`, `turn`: the worker's side, and whose turn it is there.
- `status`: the status display.
- `laws`: what holds of the caches whatever is done with them.

The program under `app/` does the input and output, the waiting and the locking
around it.
