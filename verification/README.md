# hydraulic

Particle-based hydraulic erosion on a square height grid, with vegetation whose roots slow
it down. The simulation is a library verified with Verus; `app/` holds the viewer around it.

## The library

All formulas are written over the trait `scalar::Scalar`, the arithmetic that the simulation
needs of a number type. Contracts say which operations are applied to which values, so they
hold for any numbers; laws that need exact sums or an order ask for it. `fixed::Fixed` is a
number type whose sums are exact, and is verified. The viewer brings `f32` and `f64`, one
floating-point operation for each operation of the trait: what is proved holds for it as far
as these meet the contracts of the trait, which the verifier has not seen.

| module | what it holds |
| --- | --- |
| `scalar`, `fixed`, `vector` | numbers and vectors |
| `config` | constants and parameters of the erosion |
| `cell`, `terrain_data` | the height grid, its normals and its tracking |
| `neighbors`, `erosion` | neighbours by height, slides, drops, frames |
| `erf` | what holds of the error function |
| `balance` | what slides, steps and frames keep |
| `vegetation` | plants, roots, chance, frames |
| `garden` | what roots, turns and frames of vegetation keep |
| `terrain` | heights from noise, and the mesh over them |
| `camera` | a camera that circles a point |
| `gpu_erosion` | what a graphics processor is given, and what comes back |
| `ui` | the text that tells how a run goes |
| `random` | integers drawn by `rand`, whose contract is trusted |

## The viewer

`app/main.rs` shows the surface. `app/simulation.rs` gathers the systems of the simulation in
a plugin. Erosion on a graphics processor reads its shader from
`assets/shaders/erosion.wgsl`.
