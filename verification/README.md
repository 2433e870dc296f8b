# nexus_rbd

Kernels of a rigid-body and articulated-body simulation, written and verified in
Verus.

The library computes over an abstract number (`scalar::Scalar`) and an abstract space
(`space::Space`, with the plane `Dim2` and space `Dim3`). The contract of every kernel
states exactly which operations on numbers its results are made of, in which order.
`fixed::Fixed` is a fixed-point number that implements the interface inside the verified
code. Laws that speak of mathematics (solves that invert, friction cones, kinetic
energy) are stated for readings of the numbers as reals under which the arithmetic is
exact, or only ordered where that is enough.

- `scalar`, `fixed`, `space`, `exact`, `real_vectors`: numbers, vectors, rotations and
  what they mean.
- `views`, `batch`, `columns`, `threads`: strided and batched buffers, and the items
  that each thread visits.
- `joint`, `sim_params`, `contact`, `pad`, `prep_render`: descriptions of joints,
  parameters, contacts and instances.
- `solver`: contacts between two free bodies.
- `multibody`: articulated bodies in reduced coordinates: kinematics, jacobians, mass
  matrices, factorizations, limits, motors, contacts, impulse joints, integration and
  resets.

The modules named `*_laws`, `lu_exact` and `lu_regular` hold what follows from the
contracts of several kernels together: tiers, fused passes and sweeps that end alike,
solves that invert, jacobians that give velocities, energies and powers that agree.

`app/` holds what a program needs to run the kernels on `f32`: the number type,
conversions to `glamx`, and the byte layouts of records that buffers hold.
