# nexus

The core of a meta-distribution engine: layers are composed from a
content-addressed store with kernel primitives alone (mount namespaces,
overlay, erofs, idmapped mounts, landlock, seccomp, cgroup v2), then run or
booted as pid 1.

## Layout

- `src/` is the verified library, each function with its contract: layer
  ids and descriptors, the conversion of the state files into them,
  boot-layer selection and health, the management protocol and what the
  daemon answers, the namespace registry and idle eviction, the content
  store's naming, manifests, tree hashes, object digests and verification
  tally, the garbage collection plan, generations, the backends' directories
  and mount receipts, the cgroup, capability and sandbox plans, the baseline
  seccomp program, which ancestors of a state path to check for symlinks
  and what each stat result means, and the boot window with its rollback. The blake3,
  seccompiler and `std::path::Path` calls stand behind small trusted wrappers whose contracts say
  what is assumed of them. Laws that relate several operations stand as
  public proof functions named `law_*`.
- `app/` is the system side around it: decoding the TOML files, the
  syscalls, reading files into the digest and walking the store's trees,
  placing and sweeping objects, namespace building and pinning, the stat
  calls of the symlink-ancestor check, landlock rulesets and applying the
  seccomp program, the boot window and the management socket. It carries out
  what the library decides and keeps no rule of its own beyond these
  system calls.
- `tests/` runs the library on concrete values.
