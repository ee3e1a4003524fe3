# hlanalysis

Analysis of hydration layers at solid/water interfaces from atomistic
trajectories: density profiles, orientation distributions, hydrogen-bond
statistics, reorientation dynamics and vibrational spectra.

- `src/` is the verified library: the trajectory readers (line scanning,
  frame selection, parsing of XYZ, CP2K and LAMMPS text), the choice and
  naming of saved frames, histograms and height grouping, the schedules of
  frames and time origins, the hydrogen-bond cell list and statistics, the
  labels and O-H bond layout of molecules, and the table of elements. Real
  numbers enter it as order keys (integers that order as the floats do).
- `app/` holds the Python bindings, the file I/O and the floating-point
  geometry (minimum images, angles, correlations and spectra).
- `tests/` exercises the library on concrete inputs.
