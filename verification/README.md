# plato_spectral

Spectral mathematics for monitoring pipelines: DFT alert analysis, Fisher
metric rooms, conservation checks, Sinkhorn optimal transport and health
spectral decomposition.

- `src/` is the verified library (Verus). It holds the parts that are not
  real arithmetic: the number of DFT bins, the selection and stable ranking
  of dominant frequencies, the peak bin, the seasonal bin, the integer square
  root and the centred moving-average windows of the health decomposition,
  the decision rule of the energy-chain check and the shape check of a
  transport cost matrix. Real values reach it as IEEE-754 bit patterns,
  mapped by `float_order::float_order_key` to integers that order as the
  values do (NaN maps to `None`, which compares with nothing).
- `app/` is the public floating-point API (`compute_dft`,
  `identify_dominant_frequencies`, `sinkhorn_step`, ...), which does the real
  arithmetic and calls the library for every decision above.
- `tests/` exercises the library on concrete values.
