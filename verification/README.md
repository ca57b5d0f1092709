# apxinf_ascend

Device programs for an Ascend accelerator, and a vision-language-action model on top of
them, written in Verus.

Nothing in `src/` talks to the hardware. Operations *record* what they want of the device
as a program; a session *runs* the program by handing out driver calls one at a time and
taking the driver's answers. What the programs do to device memory is said by a model of
it (`semantics.rs`), and every operation's contract says which bytes its result holds.

## Layout

- `device`, `semantics`: the vocabulary of programs, and what they mean. A program is safe
  when every step touches live memory inside its bounds, and the host neither reads nor
  writes what the stream may still be writing.
- `context`: the recorder. Whatever is recorded is safe.
- `tensor`, `kernel`, `ops/`: tensor descriptors and kernels. `ops/laws` says what results
  mean element by element: kernels that move data leave the bytes they move, and of the
  others a row, element or window depends on its own part of the operands only. A product
  is the same through a weight and through the transposed weight.
- `encode`, `host`, `text`, `transfer`: bytes, host-side layouts, decimal text.
- `cache`, `rope`, `capture`: what is kept on the device from call to call, and which
  programs may run inside a capture window.
- `backend`, `exchange`, `model`: tensors.
- `executor/`: the transformer layers. `runtime/`: the model. `vla`: requests and actions.
  Their laws: which columns of a fused projection a part is cut from, that views do not see
  each other, what the rows of a prefix are.
- `heap`, `driver/`: where allocations are placed while a program runs, which driver call
  follows which answer, and that running a safe program stays inside live memory and frees
  nothing that is in use. A program that breaks can be dropped, and its context goes on.
- `opening`, `stream`, `graph`, `library`, `ada_rms`, `ge_builder`: opening a device,
  captured graphs, and the two libraries that are loaded on demand.
- `app/`: the driver's functions, the loop around the session, the sizes that a request is
  tested for, floating point.
- `tests/`: single functions, and whole programs on a simulated driver that computes what
  the kernels compute.

Real numbers are carried as bit patterns; memory on the device holds half-precision words.
