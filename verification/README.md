# vegas

What happens in Vegas, stays in Vegas — unless you decide to bring it home.

A filesystem sandbox for Linux. A command runs in a temporary overlay of the real filesystem; when
it exits, vegas shows what it changed and asks whether to apply, keep or discard the changes.

```bash
sudo vegas run -- bash                          # run as the user who called sudo
sudo vegas run --root -- apt install curl       # run as root inside the sandbox
sudo vegas run --user 1000:1000 -- my-script.sh # run as another user
sudo vegas cleanup --dry-run                    # look for sandboxes that were left behind
```

Linux with OverlayFS and root privileges are required.

## Layout

* `src/` is the library, verified with Verus. It makes no system call.
  * `sandbox`, `apply`, `cleanup` and `setuid` are machines: `action` says which system call comes
    next, and `next` takes in its outcome and gives the lines to be shown. Each has a model in
    mathematical terms, and theorems about everything that can happen to it.
  * `diff` reads the changes off the overlay's upper directory.
  * `files` is a model of a filesystem, with theorems on what applying changes does to it; `layout`
    shows that they hold of what `diff` collects.
  * `mountinfo` reads the mount table of the kernel.
  * `user` works out which user and group the command runs as.
  * `path`, `path_set`, `order` and `text` hold paths, sets of them, sorting, numbers and answers.
  * `os` and `text` hold the few calls into `nix` and the standard library whose contracts are
    taken on trust.
* `app/` is the program: it parses the command line, makes the system calls that the machines ask
  for, and prints.
* `tests/` runs the library.

Some of the theorems: mounts are made only in a private namespace; the command is executed only
inside the overlay and, unless it is to run as root, only after root was given up; changes reach
the real filesystem only where the user chose that, no link is followed in their place, and
applying them twice ends as applying them once; a cleanup touches nothing but sandboxes, nothing at
all in a dry run, and nothing without consent.
