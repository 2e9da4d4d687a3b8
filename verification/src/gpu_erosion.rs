//! What a graphics processor is given to erode the grid, and what comes back.

use crate::cell::Cell;
use crate::config;
use crate::config::ErosionParams;
use crate::scalar::Scalar;
use crate::terrain_data::{TerrainModel, TerrainResource};
use vstd::prelude::*;

verus! {

/// How many drops one workgroup follows.
pub const WORKGROUP_SIZE: u32 = 64;

/// How many bytes a number takes on the device.
pub const NUMBER_BYTES: u64 = 4;

/// How many bytes [`GpuErosionParams`] take on the device: twelve numbers.
pub const PARAMS_BYTES: u64 = 48;

// ---- parameters ----

/// The parameters as the device reads them.
#[derive(Clone, Copy, Debug)]
pub struct GpuErosionParams<S> {
    pub grid_size: u32,
    pub map_scale: S,
    pub max_age: u32,
    pub min_volume: S,
    pub evaporation_rate: S,
    pub deposition_rate: S,
    pub entrainment: S,
    pub gravity: S,
    pub momentum_transfer: S,
    pub cycles_per_frame: u32,
    pub frame_seed: u32,
    /// Zero, to fill up to a multiple of four numbers.
    pub pad: u32,
}

/// The low 32 bits of a number.
pub open spec fn low_bits(n: int) -> u32 {
    (n % 0x1_0000_0000) as u32
}

fn low_bits_of(n: u64) -> (r: u32)
    ensures
        r == low_bits(n as int),
{
    (n % 0x1_0000_0000) as u32
}

impl<S: Scalar> GpuErosionParams<S> {
    pub open spec fn matching(params: ErosionParams<S>, grid_size: u32, frame_seed: u32) -> Self {
        GpuErosionParams {
            grid_size,
            map_scale: config::height_stretch(),
            max_age: params.max_age,
            min_volume: params.min_volume,
            evaporation_rate: params.evaporation_rate,
            deposition_rate: params.deposition_rate,
            entrainment: params.entrainment,
            gravity: params.gravity,
            momentum_transfer: params.momentum_transfer,
            cycles_per_frame: low_bits(params.cycles_per_frame as int),
            frame_seed,
            pad: 0,
        }
    }

    /// The parameters for the device. Of the number of drops it takes the low 32 bits.
    pub fn from_cpu(params: &ErosionParams<S>, grid_size: u32, frame_seed: u32) -> (r: Self)
        ensures
            r == Self::matching(*params, grid_size, frame_seed),
    {
        GpuErosionParams {
            grid_size,
            map_scale: config::map_scale(),
            max_age: params.max_age,
            min_volume: params.min_volume,
            evaporation_rate: params.evaporation_rate,
            deposition_rate: params.deposition_rate,
            entrainment: params.entrainment,
            gravity: params.gravity,
            momentum_transfer: params.momentum_transfer,
            cycles_per_frame: low_bits_of(params.cycles_per_frame as u64),
            frame_seed,
            pad: 0,
        }
    }
}

// ---- buffers ----

/// The buffers on the device. The first nine are bound, in this order.
#[derive(Clone, Copy, Debug, PartialEq, Eq, Structural)]
pub enum Slot {
    Heights,
    Discharges,
    MomentumX,
    MomentumY,
    Roots,
    DischargeTrack,
    MomentumXTrack,
    MomentumYTrack,
    Params,
    /// Where heights are copied to be read back.
    Staging,
}

/// How the shader uses a buffer.
#[derive(Clone, Copy, Debug, PartialEq, Eq, Structural)]
pub enum Binding {
    /// It reads and writes it.
    Changed,
    /// It reads it.
    Read,
    /// It reads it, and finds parameters in it.
    Uniform,
}

/// What a buffer is made for.
#[derive(Clone, Copy, Debug, PartialEq, Eq, Structural)]
pub struct BufferPlan {
    pub slot: Slot,
    /// The size in bytes.
    pub size: u64,
    pub storage: bool,
    pub uniform: bool,
    pub copy_from: bool,
    pub copy_to: bool,
    pub map_read: bool,
}

/// The slot that is bound at `binding`.
pub open spec fn bound_slot(binding: int) -> Slot {
    if binding == 0 {
        Slot::Heights
    } else if binding == 1 {
        Slot::Discharges
    } else if binding == 2 {
        Slot::MomentumX
    } else if binding == 3 {
        Slot::MomentumY
    } else if binding == 4 {
        Slot::Roots
    } else if binding == 5 {
        Slot::DischargeTrack
    } else if binding == 6 {
        Slot::MomentumXTrack
    } else if binding == 7 {
        Slot::MomentumYTrack
    } else {
        Slot::Params
    }
}

/// How the slot that is bound at `binding` is used: heights and tracking change, the rest
/// of the grid is read, and the parameters come last.
pub open spec fn binding_use(binding: int) -> Binding {
    if binding == 8 {
        Binding::Uniform
    } else if 1 <= binding <= 4 {
        Binding::Read
    } else {
        Binding::Changed
    }
}

/// The slots in the order in which they are bound, and how the shader uses each.
pub fn bindings() -> (r: Vec<(Slot, Binding)>)
    ensures
        r@ == Seq::new(9, |i: int| (bound_slot(i), binding_use(i))),
{
    let mut all: Vec<(Slot, Binding)> = Vec::new();
    all.push((Slot::Heights, Binding::Changed));
    all.push((Slot::Discharges, Binding::Read));
    all.push((Slot::MomentumX, Binding::Read));
    all.push((Slot::MomentumY, Binding::Read));
    all.push((Slot::Roots, Binding::Read));
    all.push((Slot::DischargeTrack, Binding::Changed));
    all.push((Slot::MomentumXTrack, Binding::Changed));
    all.push((Slot::MomentumYTrack, Binding::Changed));
    all.push((Slot::Params, Binding::Uniform));
    assert(all@ =~= Seq::new(9, |i: int| (bound_slot(i), binding_use(i))));
    all
}

/// What a buffer holds when a run starts.
#[derive(Clone, Copy, Debug, PartialEq, Eq, Structural)]
pub enum Upload {
    Heights,
    Discharges,
    MomentumX,
    MomentumY,
    Roots,
    /// Nothing tracked yet.
    Zeros,
    Params,
}

/// What the slot that is bound at `binding` holds when a run starts.
pub open spec fn upload_of(binding: int) -> Upload {
    if binding == 0 {
        Upload::Heights
    } else if binding == 1 {
        Upload::Discharges
    } else if binding == 2 {
        Upload::MomentumX
    } else if binding == 3 {
        Upload::MomentumY
    } else if binding == 4 {
        Upload::Roots
    } else if binding == 8 {
        Upload::Params
    } else {
        Upload::Zeros
    }
}

/// The slots in the order in which they are bound, and what each holds when a run starts.
pub fn uploads() -> (r: Vec<(Slot, Upload)>)
    ensures
        r@ == Seq::new(9, |i: int| (bound_slot(i), upload_of(i))),
{
    let mut all: Vec<(Slot, Upload)> = Vec::new();
    all.push((Slot::Heights, Upload::Heights));
    all.push((Slot::Discharges, Upload::Discharges));
    all.push((Slot::MomentumX, Upload::MomentumX));
    all.push((Slot::MomentumY, Upload::MomentumY));
    all.push((Slot::Roots, Upload::Roots));
    all.push((Slot::DischargeTrack, Upload::Zeros));
    all.push((Slot::MomentumXTrack, Upload::Zeros));
    all.push((Slot::MomentumYTrack, Upload::Zeros));
    all.push((Slot::Params, Upload::Params));
    assert(all@ =~= Seq::new(9, |i: int| (bound_slot(i), upload_of(i))));
    all
}

/// What the buffer of a slot is made for, over a grid of `n` cells: those of the grid are
/// written from outside, and those that change can be copied on; parameters are written,
/// and what is staged can be read.
pub open spec fn planned(slot: Slot, n: int) -> BufferPlan {
    let params = slot == Slot::Params;
    let staging = slot == Slot::Staging;
    BufferPlan {
        slot,
        size: if params {
            PARAMS_BYTES
        } else {
            (n * NUMBER_BYTES) as u64
        },
        storage: !params && !staging,
        uniform: params,
        copy_from: slot == Slot::Heights || slot == Slot::DischargeTrack || slot
            == Slot::MomentumXTrack || slot == Slot::MomentumYTrack,
        copy_to: true,
        map_read: staging,
    }
}

/// What the buffer of a slot is made for.
pub fn plan_buffer(slot: Slot, n: u64) -> (r: BufferPlan)
    requires
        n * NUMBER_BYTES <= u64::MAX,
    ensures
        r == planned(slot, n as int),
{
    let params: bool = slot == Slot::Params;
    let staging: bool = slot == Slot::Staging;
    BufferPlan {
        slot,
        size: if params {
            PARAMS_BYTES
        } else {
            n * NUMBER_BYTES
        },
        storage: !params && !staging,
        uniform: params,
        copy_from: slot == Slot::Heights || slot == Slot::DischargeTrack || slot
            == Slot::MomentumXTrack || slot == Slot::MomentumYTrack,
        copy_to: true,
        map_read: staging,
    }
}

/// The buffers to make for a grid of `n` cells: all of them, unless those for a grid of
/// `held` cells are there and serve.
pub fn ensure_bufs(held: u64, n: u64) -> (r: Vec<BufferPlan>)
    requires
        n * NUMBER_BYTES <= u64::MAX,
    ensures
        held == n ==> r@.len() == 0,
        held != n ==> r@ == Seq::new(
            10,
            |i: int|
                planned(
                    if i == 9 {
                        Slot::Staging
                    } else {
                        bound_slot(i)
                    },
                    n as int,
                ),
        ),
{
    let mut plans: Vec<BufferPlan> = Vec::new();
    if held == n {
        return plans;
    }
    let slots: Vec<(Slot, Binding)> = bindings();
    let mut i: usize = 0;
    while i < slots.len()
        invariant
            i <= slots.len(),
            n * NUMBER_BYTES <= u64::MAX,
            slots@ == Seq::new(9, |i: int| (bound_slot(i), binding_use(i))),
            plans@.len() == i,
            forall|j: int|
                0 <= j < i ==> #[trigger] plans@[j] == planned(bound_slot(j), n as int),
        decreases slots.len() - i,
    {
        plans.push(plan_buffer(slots[i].0, n));
        i = i + 1;
    }
    plans.push(plan_buffer(Slot::Staging, n));
    assert(plans@ =~= Seq::new(
        10,
        |i: int|
            planned(
                if i == 9 {
                    Slot::Staging
                } else {
                    bound_slot(i)
                },
                n as int,
            ),
    ));
    plans
}

/// How many workgroups follow so many drops.
pub fn workgroups(cycles: u32) -> (r: u32)
    ensures
        r == (cycles + WORKGROUP_SIZE - 1) / (WORKGROUP_SIZE as int),
{
    ((cycles as u64 + (WORKGROUP_SIZE as u64 - 1)) / (WORKGROUP_SIZE as u64)) as u32
}

/// The workgroups follow all drops, and with one group fewer some would be left.
pub proof fn workgroups_suffice(cycles: u32)
    ensures
        ({
            let groups = (cycles + WORKGROUP_SIZE - 1) / (WORKGROUP_SIZE as int);
            &&& groups * WORKGROUP_SIZE >= cycles
            &&& (groups - 1) * WORKGROUP_SIZE < cycles
        }),
{
}

// ---- there and back ----

/// What the device is given of the grid, cell after cell.
#[derive(Debug)]
pub struct GpuGrid<S> {
    pub heights: Vec<S>,
    pub discharges: Vec<S>,
    pub momentum_x: Vec<S>,
    pub momentum_y: Vec<S>,
    pub roots: Vec<S>,
}

impl<S: Scalar> GpuGrid<S> {
    /// Whether it holds what `cells` hold.
    pub open spec fn shows(&self, cells: Seq<Cell<S>>) -> bool {
        &&& self.heights@ == Seq::new(cells.len(), |i: int| cells[i].height)
        &&& self.discharges@ == Seq::new(cells.len(), |i: int| cells[i].discharge)
        &&& self.momentum_x@ == Seq::new(cells.len(), |i: int| cells[i].momentum_x)
        &&& self.momentum_y@ == Seq::new(cells.len(), |i: int| cells[i].momentum_y)
        &&& self.roots@ == Seq::new(cells.len(), |i: int| cells[i].root_density)
    }

    fn of(cells: &Vec<Cell<S>>) -> (r: Self)
        ensures
            r.shows(cells@),
    {
        let mut heights: Vec<S> = Vec::with_capacity(cells.len());
        let mut discharges: Vec<S> = Vec::with_capacity(cells.len());
        let mut momentum_x: Vec<S> = Vec::with_capacity(cells.len());
        let mut momentum_y: Vec<S> = Vec::with_capacity(cells.len());
        let mut roots: Vec<S> = Vec::with_capacity(cells.len());
        let mut i: usize = 0;
        while i < cells.len()
            invariant
                i <= cells.len(),
                heights@ =~= Seq::new(i as nat, |j: int| cells@[j].height),
                discharges@ =~= Seq::new(i as nat, |j: int| cells@[j].discharge),
                momentum_x@ =~= Seq::new(i as nat, |j: int| cells@[j].momentum_x),
                momentum_y@ =~= Seq::new(i as nat, |j: int| cells@[j].momentum_y),
                roots@ =~= Seq::new(i as nat, |j: int| cells@[j].root_density),
            decreases cells.len() - i,
        {
            let cell: Cell<S> = cells[i];
            heights.push(cell.height);
            discharges.push(cell.discharge);
            momentum_x.push(cell.momentum_x);
            momentum_y.push(cell.momentum_y);
            roots.push(cell.root_density);
            i = i + 1;
        }
        GpuGrid { heights, discharges, momentum_x, momentum_y, roots }
    }
}

/// A frame of erosion for the device to run.
#[derive(Debug)]
pub struct GpuFrame<S> {
    pub grid: GpuGrid<S>,
    pub params: GpuErosionParams<S>,
    pub workgroups: u32,
}

/// The frame that the device is to run, if it is ready and wanted and the grid is not empty.
/// Drops start from the low 32 bits of the number of the frame.
pub fn gpu_frame<S: Scalar>(
    terrain: &TerrainResource<S>,
    params: &ErosionParams<S>,
    frame: u64,
    ready: bool,
    wanted: bool,
) -> (r: Option<GpuFrame<S>>)
    requires
        terrain@.wf(),
    ensures
        r is Some == (ready && wanted && terrain@.size > 0),
        match r {
            Some(f) => {
                &&& f.grid.shows(terrain@.cells)
                &&& f.params == GpuErosionParams::matching(
                    *params,
                    terrain.size as u32,
                    low_bits(frame as int),
                )
                &&& f.workgroups == (low_bits(params.cycles_per_frame as int) + WORKGROUP_SIZE - 1)
                    / (WORKGROUP_SIZE as int)
            },
            None => true,
        },
{
    if !ready || !wanted || terrain.size == 0 {
        return None;
    }
    let gpu_params: GpuErosionParams<S> = GpuErosionParams::from_cpu(
        params,
        terrain.size as u32,
        low_bits_of(frame),
    );
    Some(
        GpuFrame {
            grid: GpuGrid::of(&terrain.cells),
            workgroups: workgroups(gpu_params.cycles_per_frame),
            params: gpu_params,
        },
    )
}

/// The heights that a run of the device gave: those that were read back, or those that it
/// was given where nothing could be read.
pub fn heights_after_run<S: Scalar>(given: &Vec<S>, read: Option<Vec<S>>) -> (r: Vec<S>)
    ensures
        r@ == match read {
            Some(heights) => heights@,
            None => given@,
        },
{
    match read {
        Some(heights) => heights,
        None => {
            let mut heights: Vec<S> = Vec::with_capacity(given.len());
            while heights.len() < given.len()
                invariant
                    heights.len() <= given.len(),
                    heights@ == given@.take(heights.len() as int),
                decreases given.len() - heights.len(),
            {
                heights.push(given[heights.len()]);
                assert(heights@ =~= given@.take(heights.len() as int));
            }
            assert(given@.take(heights.len() as int) =~= given@);
            heights
        },
    }
}

impl<S: Scalar> TerrainModel<S> {
    /// The grid with `heights` written to its first cells.
    pub open spec fn at_heights(self, heights: Seq<S>) -> Self {
        TerrainModel {
            cells: Seq::new(
                self.cells.len(),
                |i: int|
                    if i < heights.len() {
                        Cell { height: heights[i], ..self.cells[i] }
                    } else {
                        self.cells[i]
                    },
            ),
            ..self
        }
    }
}

/// Writes heights back to the grid. Cells that none came back for keep theirs.
pub fn write_heights<S: Scalar>(terrain: &mut TerrainResource<S>, heights: &Vec<S>)
    ensures
        final(terrain)@ == old(terrain)@.at_heights(heights@),
        old(terrain)@.wf() ==> final(terrain)@.wf(),
{
    let ghost t = terrain@;
    let mut i: usize = 0;
    while i < terrain.cells.len() && i < heights.len()
        invariant
            i <= heights.len(),
            i <= terrain.cells.len(),
            terrain@.size == t.size,
            terrain@.cells.len() == t.cells.len(),
            forall|j: int|
                0 <= j < t.cells.len() ==> #[trigger] terrain@.cells[j] == if j < i {
                    t.at_heights(heights@).cells[j]
                } else {
                    t.cells[j]
                },
        decreases terrain.cells.len() - i,
    {
        let cell: &mut Cell<S> = &mut terrain.cells[i];
        cell.height = heights[i];
        i = i + 1;
    }
    assert(terrain@.cells =~= t.at_heights(heights@).cells);
}

/// The heights that the device was given, written back, change nothing: a run from which
/// nothing could be read leaves the grid as it was.
pub proof fn failed_runs_change_nothing<S: Scalar>(t: TerrainModel<S>, grid: GpuGrid<S>)
    requires
        grid.shows(t.cells),
    ensures
        t.at_heights(grid.heights@) == t,
{
    assert(t.at_heights(grid.heights@).cells =~= t.cells);
}

/// Whatever comes back, a run changes heights only.
pub proof fn runs_change_heights_only<S: Scalar>(t: TerrainModel<S>, heights: Seq<S>)
    ensures
        t.at_heights(heights).same_but_heights(t),
{
}

/// Each slot is bound once. What a run changes starts from the heights or from zeros, what it
/// only reads is the rest of the grid, and the uniform holds the parameters.
pub proof fn bindings_match_uploads(binding: int, other: int)
    requires
        0 <= binding < 9,
        0 <= other < 9,
    ensures
        bound_slot(binding) == bound_slot(other) ==> binding == other,
        bound_slot(binding) != Slot::Staging,
        binding_use(binding) == Binding::Changed <==> upload_of(binding) == Upload::Heights
            || upload_of(binding) == Upload::Zeros,
        binding_use(binding) == Binding::Uniform <==> upload_of(binding) == Upload::Params,
        upload_of(binding) == Upload::Heights <==> bound_slot(binding) == Slot::Heights,
        upload_of(binding) == Upload::Discharges <==> bound_slot(binding) == Slot::Discharges,
        upload_of(binding) == Upload::MomentumX <==> bound_slot(binding) == Slot::MomentumX,
        upload_of(binding) == Upload::MomentumY <==> bound_slot(binding) == Slot::MomentumY,
        upload_of(binding) == Upload::Roots <==> bound_slot(binding) == Slot::Roots,
        upload_of(binding) == Upload::Params <==> bound_slot(binding) == Slot::Params,
{
}

/// Every buffer that the shader changes or reads holds one number for each cell, and the
/// heights that are copied to be read fit where they go. All can be written from outside, only
/// what is staged can be read there, and only the parameters are uniform.
pub proof fn buffers_fit(n: int, binding: int)
    requires
        0 <= n,
        n * NUMBER_BYTES <= u64::MAX,
        0 <= binding < 8,
    ensures
        planned(bound_slot(binding), n).size == n * NUMBER_BYTES,
        planned(bound_slot(binding), n).storage,
        binding_use(binding) == Binding::Changed <==> planned(bound_slot(binding), n).copy_from,
        planned(bound_slot(binding), n).copy_to,
        !planned(bound_slot(binding), n).uniform && !planned(bound_slot(binding), n).map_read,
        planned(Slot::Heights, n).size == planned(Slot::Staging, n).size,
        planned(Slot::Staging, n).copy_to && planned(Slot::Staging, n).map_read,
        !planned(Slot::Staging, n).storage && !planned(Slot::Staging, n).uniform,
        planned(Slot::Params, n).copy_to && planned(Slot::Params, n).uniform,
        !planned(Slot::Params, n).storage && !planned(Slot::Params, n).map_read,
        planned(Slot::Params, n).size == PARAMS_BYTES,
{
}

} // verus!
