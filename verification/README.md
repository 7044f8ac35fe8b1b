# live_image

Customisation of CoreOS live images: embedding Ignition configs, network
settings and kernel arguments in ISO images and in the initramfs of a network
boot, and extracting minimal images.

`src/` is the verified library. It works on the bytes of an image and the entries
of its directory tree, and says what is to be written or streamed; it does no
input or output itself.

- `text`, `order`, `glob`, `series`: texts, byte strings, path patterns and series
  of steps.
- `region`, `stream`: regions of an image file, writing them in place, and
  copying the file around them.
- `iso`, `initrd`, `input`: the entries of an image, the files of an initramfs,
  and files that are handed in.
- `area`, `kargs`, `embed`, `iso_config`: the embed areas of an image and its
  customisation as a whole.
- `network`, `editor`, `ignition`, `hook`: parts of a customisation.
- `customize`, `compose`: the customisation of a live system, and the initramfs
  that it becomes.
- `cmdline`, `iso_commands`, `customize_commands`, `pxe`, `miniso`, `extract`,
  `output`: the commands.
- `read_back`, `laws`, `command_laws`, `byte_laws`, `change_laws`: what holds of
  all this together, such as that what is written is read back, and that a reset
  leaves nothing of earlier changes.

Formats that the surrounding program provides (the initramfs archive, the JSON of
the karg description, the edit of kargs, the Ignition config that is built and
written) are functions that the commands take as arguments. Contracts speak of
whatever these functions return.

`app/` performs the input and output around the library, and `tests/` runs the
library on images made for the purpose.
