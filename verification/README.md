# kin_vfs

A virtual file system over a graph of repository content, in two forms:

- a library that a process preloads, which answers the process's file calls
  from the graph for paths inside a workspace and leaves every other path to
  the kernel;
- an NFS export that serves every registered workspace under one root.

The graph is owned by a daemon. A path inside a workspace is never silently
answered from raw disk.

## Layout

`src/` holds the rules, verified with Verus: what a call on a path or a
descriptor asks for next and what it returns, how paths are resolved through
the graph, what is remembered of it, how requests and answers are framed, which
workspace a file number belongs to, and what an export reports of itself. It
does no I/O. Where a decision alternates with the outside world, it is a state
machine that names the next action and takes the event that came of it.

`app/` performs those actions: the libc entry points, the daemon's socket, the
NFS listener, the mount tools, and the files on disk.

`tests/` runs the library on concrete values.

## Modules

| Modules | What they decide |
| --- | --- |
| `bytes`, `text`, `hashing`, `pathmap`, `vfs_path` | bytes, text and paths |
| `types`, `protocol`, `client`, `socket` | talking to the daemon |
| `statcache`, `graph_walk`, `errno`, `statfill` | resolving paths through the graph |
| `fd_table`, `fd_calls`, `dirents`, `open_call`, `path_calls`, `host_path`, `surface`, `shim`, `notify` | the preloaded library |
| `inodes`, `nfs_fs`, `readdir`, `router`, `server`, `status`, `registry`, `automount` | the export |
| `projfs` | the projection on Windows |
