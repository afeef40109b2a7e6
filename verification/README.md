# oxideav-avif

AVIF, the AV1 profile of the HEIF still-image container, as a verified
Verus library.

- Reading: `box_parser`, `meta_parse`, `meta`, `props`, `props_parse`,
  `groups`, `region` and `sample_group` decode boxes; `parser` walks a file
  and finds the bytes of its items; `inspect` sums a file up.
- Derived images: `derived`, `resolve`, `gain_map`, `alpha` and `audits` say
  what a file derives and how far it keeps the rules for that; `grid`,
  `overlay`, `picture` and `compose` put the pictures together.
- Writing: `mux`, `mux_grid`, `mux_overlay` and `sequence` write files, over
  `mux_items`, `mux_props`, `moov`, `still`, `obu` and `av1`.
- Laws: the modules that end in `_laws`, and the proof functions that start
  with `law_` elsewhere, state what holds between reading and writing.

Each parser has a specification function from bytes to the decoded value or
to the fault with its text, and its contract equates the two. Files are
written through a plan of what they hold (`container::FilePlan`); a file that
is written reads back as its plan.

What is not proved is the behaviour of `oxideav-heif` (the container writer
and the composition of pictures) and of `oxideav-av1` (the encoder). The
contracts of the calls into them stand in `container`, `bytes`, `picture`,
`grid`, `resolve` and `av1`; a few calls into the standard library have
theirs in `text` and `props`.

`app/` holds what the library leaves out: registration, conversion of frames
and errors, and measures that are floating-point numbers.
