# stt_pncc

Power-Normalized Cepstral Coefficients (PNCC) for robust speech features.

- `src/` is the verified library (Verus): frame layout (`framing`), the
  integer structure of delta coefficients (`deltas`), zero padding and bin
  selection of the spectrum (`spectrum`), the medium-time windows
  (`medium_time`), the filter's tap counts (`filter`), and the DCT's
  transpose, cosine-phase table and pass order (`dct`), with the window and
  DCT option enums.
- `app/` holds the floating-point signal processing (filtering, FFT via
  `rustfft`, gammatone filter bank via `num-complex`, DCT, normalisations,
  the `pncc` pipeline and `deltas`) on `ndarray` matrices, calling the
  library for every layout decision.
- `tests/` exercises the library on concrete values.
