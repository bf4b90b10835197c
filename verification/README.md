# qrcode_video

Stores a file as a video of QR codes and reads it back: the file is
compressed with xz, cut into pieces of 2048 bytes, each piece drawn as a QR
code image `N.png`, and the images encoded as an H.264 video; decoding turns
the frames back into images, reads their codes in the order of their numbers,
joins the pieces and decompresses them.

Layout:

- `src/` is the verified library (Verus): the command line (`args`), the
  decimal text of numbers (`digits`, `text`), the names of the image files and
  their order (`frame_names`, `sort_lib`, `frame_order`), the cutting and
  joining of the data (`chunking`), compression (`compression`, over the `xz`
  crate), QR codes (`qr`, drawing them over the `qrcode` crate and taking the data
  out of what was read from an image), and the
  frame-level decisions of the encoder and the decoder (`frame`,
  `convert_to_mp4`, `decode_from_mp4`).
- `app/` is the program around it: files, threads, the temporary folder, the
  calls into ffmpeg, and the reading of QR codes with `rqrr`, which can panic
  on images that cannot be described in advance.
- `tests/` runs the library on concrete values.
