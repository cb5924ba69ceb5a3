use vstd::prelude::*;
use crate::block::AIR;
use crate::chunk::Chunk;
use crate::grid::grid_shaped;

verus! {

/// Number of slots of the hotbar.
pub const HOTBAR_SIZE: usize = 8;

/// The keys that the player reacts to.
#[derive(Copy, Clone, Debug, PartialEq, Eq, Structural)]
pub enum Key {
    KeyW,
    ArrowUp,
    KeyS,
    ArrowDown,
    KeyA,
    ArrowLeft,
    KeyD,
    ArrowRight,
    Space,
    ShiftLeft,
    Digit1,
    Digit2,
    Digit3,
    Digit4,
    Digit5,
    Digit6,
    Digit7,
    Digit8,
    KeyE,
    /// Any other key.
    Other,
}

impl Key {
    /// The hotbar slot that a digit key selects.
    pub open spec fn spec_hotbar_slot(self) -> Option<usize> {
        match self {
            Key::Digit1 => Some(0usize),
            Key::Digit2 => Some(1usize),
            Key::Digit3 => Some(2usize),
            Key::Digit4 => Some(3usize),
            Key::Digit5 => Some(4usize),
            Key::Digit6 => Some(5usize),
            Key::Digit7 => Some(6usize),
            Key::Digit8 => Some(7usize),
            _ => None,
        }
    }

    /// The hotbar slot that a digit key selects, counted from zero.
    pub fn hotbar_slot(self) -> (slot: Option<usize>)
        ensures
            slot == self.spec_hotbar_slot(),
            slot matches Some(i) ==> i < HOTBAR_SIZE,
    {
        match self {
            Key::Digit1 => Some(0),
            Key::Digit2 => Some(1),
            Key::Digit3 => Some(2),
            Key::Digit4 => Some(3),
            Key::Digit5 => Some(4),
            Key::Digit6 => Some(5),
            Key::Digit7 => Some(6),
            Key::Digit8 => Some(7),
            _ => None,
        }
    }
}

/// The directions in which the player is asked to move: one flag for each
/// movement key that is held down.
#[derive(Copy, Clone, Debug, PartialEq, Eq, Structural)]
pub struct Movement {
    pub forward: bool,
    pub backward: bool,
    pub left: bool,
    pub right: bool,
    pub up: bool,
    pub down: bool,
}

/// The state of the player that the keyboard drives: movement, the hotbar
/// and the inventory screen.
#[derive(Copy, Clone, Debug, PartialEq, Eq)]
pub struct Player {
    pub movement: Movement,
    pub selected_block: u32,
    pub hotbar: [u32; 8],
    pub selected_hotbar_slot: usize,
    pub cursor_locked: bool,
    pub show_inventory: bool,
}

/// Whether the chunk at index `i` is the first of `chunks` at the chunk
/// position `(cx, cz)`.
pub open spec fn is_first_chunk(chunks: Seq<Chunk>, i: int, cx: int, cz: int) -> bool {
    &&& 0 <= i < chunks.len()
    &&& chunks[i].pos[0] == cx
    &&& chunks[i].pos[1] == cz
    &&& forall|j: int|
        0 <= j < i ==> (#[trigger] chunks[j]).pos[0] != cx || chunks[j].pos[1] != cz
}

/// Whether `chunks` holds a chunk at the chunk position `(cx, cz)`.
pub open spec fn has_chunk_at(chunks: Seq<Chunk>, cx: int, cz: int) -> bool {
    exists|i: int| is_first_chunk(chunks, i, cx, cz)
}

/// The index of the first chunk at the chunk position `(cx, cz)`.
pub open spec fn first_chunk_at(chunks: Seq<Chunk>, cx: int, cz: int) -> int {
    choose|i: int| is_first_chunk(chunks, i, cx, cz)
}

/// Whether `chunks` holds a chunk that covers the column of the world cell
/// `cell`.
pub open spec fn loaded(chunks: Seq<Chunk>, cell: [i32; 3]) -> bool {
    has_chunk_at(chunks, cell[0] as int / 16, cell[2] as int / 16)
}

/// The index of the first chunk that covers the column of the world cell
/// `cell`.
pub open spec fn chunk_of(chunks: Seq<Chunk>, cell: [i32; 3]) -> int {
    first_chunk_at(chunks, cell[0] as int / 16, cell[2] as int / 16)
}

/// Whether the world cell `cell` holds a block other than air: the first
/// chunk over its column has a solid block at the cell's height.
pub open spec fn solid_at(chunks: Seq<Chunk>, cell: [i32; 3]) -> bool {
    &&& loaded(chunks, cell)
    &&& 0 <= cell[1] < 256
    &&& chunks[chunk_of(chunks, cell)].blocks[cell[0] as int % 16][cell[1] as int][cell[2] as int
        % 16].mat != AIR
}

/// Whether the world cell `cell` is known to be free: a chunk covers its
/// column, and the cell holds air or lies above or below the chunk.
pub open spec fn empty_at(chunks: Seq<Chunk>, cell: [i32; 3]) -> bool {
    loaded(chunks, cell) && !solid_at(chunks, cell)
}

/// Whether `k` is the first position of `cells` that holds a solid block.
pub open spec fn is_first_hit(chunks: Seq<Chunk>, cells: Seq<[i32; 3]>, k: int) -> bool {
    &&& 0 <= k < cells.len()
    &&& solid_at(chunks, cells[k])
    &&& forall|j: int| 0 <= j < k ==> !solid_at(chunks, #[trigger] cells[j])
}

/// Whether `j` is the last position of `cells` before `k` that is known to
/// be free.
pub open spec fn is_last_empty_before(
    chunks: Seq<Chunk>,
    cells: Seq<[i32; 3]>,
    j: int,
    k: int,
) -> bool {
    &&& 0 <= j < k
    &&& empty_at(chunks, cells[j])
    &&& forall|m: int| j < m < k ==> !empty_at(chunks, #[trigger] cells[m])
}

/// What a lookup of a world cell finds.
#[derive(Copy, Clone, Debug, PartialEq, Eq, Structural)]
pub enum Probe {
    /// The cell holds a block other than air.
    Solid,
    /// A chunk covers the cell's column, and the cell holds no block.
    Empty,
    /// No chunk covers the cell's column.
    Unloaded,
}

/// The chunk position and the position inside the chunk of the world cell
/// `cell`, by floored division: cells with negative coordinates belong to
/// chunks with negative positions.
pub fn locate(cell: [i32; 3]) -> (place: ([i32; 2], [i32; 3]))
    ensures
        place.0[0] == cell[0] as int / 16,
        place.0[1] == cell[2] as int / 16,
        place.1[0] == cell[0] as int % 16,
        place.1[1] == cell[1],
        place.1[2] == cell[2] as int % 16,
{
    let chunk_x: i32 = match cell[0].checked_div_euclid(16) {
        Some(q) => q,
        None => 0,
    };
    let chunk_z: i32 = match cell[2].checked_div_euclid(16) {
        Some(q) => q,
        None => 0,
    };
    let local_x: i32 = match cell[0].checked_rem_euclid(16) {
        Some(r) => r,
        None => 0,
    };
    let local_z: i32 = match cell[2].checked_rem_euclid(16) {
        Some(r) => r,
        None => 0,
    };
    ([chunk_x, chunk_z], [local_x, cell[1], local_z])
}

/// Looks the world cell `cell` up in the first chunk over its column.
pub fn probe(chunks: &Vec<Chunk>, cell: [i32; 3]) -> (found: Probe)
    requires
        forall|i: int| 0 <= i < chunks.len() ==> grid_shaped((#[trigger] chunks[i]).blocks),
    ensures
        found == Probe::Solid <==> solid_at(chunks@, cell),
        found == Probe::Empty <==> empty_at(chunks@, cell),
        found == Probe::Unloaded <==> !loaded(chunks@, cell),
{
    let (chunk_pos, local) = locate(cell);
    let mut i: usize = 0;
    while i < chunks.len()
        invariant
            i <= chunks.len(),
            chunk_pos[0] == cell[0] as int / 16,
            chunk_pos[1] == cell[2] as int / 16,
            local[0] == cell[0] as int % 16,
            local[1] == cell[1],
            local[2] == cell[2] as int % 16,
            forall|j: int| 0 <= j < chunks.len() ==> grid_shaped((#[trigger] chunks[j]).blocks),
            forall|j: int|
                0 <= j < i ==> (#[trigger] chunks[j]).pos[0] != chunk_pos[0] || chunks[j].pos[1]
                    != chunk_pos[1],
        decreases chunks.len() - i,
    {
        if chunks[i].pos[0] == chunk_pos[0] && chunks[i].pos[1] == chunk_pos[1] {
            proof {
                let cx = cell[0] as int / 16;
                let cz = cell[2] as int / 16;
                assert(is_first_chunk(chunks@, i as int, cx, cz));
                let k = chunk_of(chunks@, cell);
                assert(is_first_chunk(chunks@, k, cx, cz));
                assert(k == i) by {
                    if k < i {
                        assert(chunks[k].pos[0] != cx || chunks[k].pos[1] != cz);
                    } else if i < k {
                        assert(chunks[i as int].pos[0] != cx || chunks[i as int].pos[1] != cz);
                    }
                }
            }
            return match chunks[i].get_block(local) {
                Some(block) => if !block.is_air() {
                    Probe::Solid
                } else {
                    Probe::Empty
                },
                None => Probe::Empty,
            };
        }
        i += 1;
    }
    proof {
        let cx = cell[0] as int / 16;
        let cz = cell[2] as int / 16;
        assert forall|k: int| !is_first_chunk(chunks@, k, cx, cz) by {
            if 0 <= k < chunks.len() {
                assert(chunks[k].pos[0] != chunk_pos[0] || chunks[k].pos[1] != chunk_pos[1]);
            }
        }
    }
    Probe::Unloaded
}

impl Player {
    /// A player is well formed when the selected slot is a slot of the
    /// hotbar.
    pub open spec fn wf(&self) -> bool {
        self.selected_hotbar_slot < HOTBAR_SIZE
    }

    /// The player at the start: standing still, the hotbar filled with the
    /// materials one to eight, the first slot selected, the inventory closed.
    pub open spec fn spec_new() -> Player {
        Player {
            movement: Movement {
                forward: false,
                backward: false,
                left: false,
                right: false,
                up: false,
                down: false,
            },
            selected_block: 1,
            hotbar: [1u32, 2u32, 3u32, 4u32, 5u32, 6u32, 7u32, 8u32],
            selected_hotbar_slot: 0,
            cursor_locked: false,
            show_inventory: false,
        }
    }

    /// The player at the start.
    pub fn new() -> (player: Player)
        ensures
            player == Self::spec_new(),
            player.wf(),
    {
        let mut hotbar: [u32; 8] = [0u32; 8];
        let mut i: usize = 0;
        while i < HOTBAR_SIZE
            invariant
                i <= HOTBAR_SIZE,
                forall|j: int| 0 <= j < i ==> #[trigger] hotbar[j] == j + 1,
            decreases HOTBAR_SIZE - i,
        {
            hotbar[i] = (i + 1) as u32;
            i += 1;
        }
        assert(hotbar =~= Self::spec_new().hotbar);
        Player {
            movement: Movement {
                forward: false,
                backward: false,
                left: false,
                right: false,
                up: false,
                down: false,
            },
            selected_block: 1,
            hotbar,
            selected_hotbar_slot: 0,
            cursor_locked: false,
            show_inventory: false,
        }
    }

    /// The first cell of `cells` that holds a block other than air. `cells`
    /// are the world cells that a ray visits, in the order in which it visits
    /// them; cells that no chunk covers are passed over.
    pub fn get_block_pointed_at(chunks: &Vec<Chunk>, cells: &Vec<[i32; 3]>) -> (hit: Option<
        [i32; 3],
    >)
        requires
            forall|i: int| 0 <= i < chunks.len() ==> grid_shaped((#[trigger] chunks[i]).blocks),
        ensures
            hit.is_none() <==> forall|k: int|
                0 <= k < cells.len() ==> !solid_at(chunks@, #[trigger] cells[k]),
            forall|k: int| is_first_hit(chunks@, cells@, k) ==> hit == Some(cells[k]),
    {
        let mut k: usize = 0;
        while k < cells.len()
            invariant
                k <= cells.len(),
                forall|i: int| 0 <= i < chunks.len() ==> grid_shaped((#[trigger] chunks[i]).blocks),
                forall|j: int| 0 <= j < k ==> !solid_at(chunks@, #[trigger] cells[j]),
            decreases cells.len() - k,
        {
            let world_block_pos = cells[k];
            match probe(chunks, world_block_pos) {
                Probe::Solid => {
                    proof {
                        assert forall|m: int| is_first_hit(chunks@, cells@, m) implies m == k by {
                            if m < k {
                                assert(!solid_at(chunks@, cells[m]));
                            } else if k < m {
                                assert(!solid_at(chunks@, cells[k as int]));
                            }
                        }
                    }
                    return Some(world_block_pos);
                },
                _ => {},
            }
            k += 1;
        }
        None
    }

    /// The cell into which a block would be placed: the last cell of `cells`
    /// that is known to be free before the first cell that holds a block
    /// other than air. `cells` are the world cells that a ray visits, in the
    /// order in which it visits them. Where the ray meets no block, or no
    /// free cell before the block, there is no such cell.
    pub fn get_block_placement_pos(chunks: &Vec<Chunk>, cells: &Vec<[i32; 3]>) -> (target: Option<
        [i32; 3],
    >)
        requires
            forall|i: int| 0 <= i < chunks.len() ==> grid_shaped((#[trigger] chunks[i]).blocks),
        ensures
            (forall|k: int| 0 <= k < cells.len() ==> !solid_at(chunks@, #[trigger] cells[k]))
                ==> target.is_none(),
            forall|k: int, j: int|
                is_first_hit(chunks@, cells@, k) && is_last_empty_before(chunks@, cells@, j, k)
                    ==> target == Some(cells[j]),
            forall|k: int|
                is_first_hit(chunks@, cells@, k) && (forall|j: int|
                    0 <= j < k ==> !empty_at(chunks@, #[trigger] cells[j])) ==> target.is_none(),
    {
        let mut last_empty_pos: Option<[i32; 3]> = None;
        let ghost mut last: int = -1;
        let mut k: usize = 0;
        while k < cells.len()
            invariant
                k <= cells.len(),
                -1 <= last < k,
                forall|i: int| 0 <= i < chunks.len() ==> grid_shaped((#[trigger] chunks[i]).blocks),
                forall|j: int| 0 <= j < k ==> !solid_at(chunks@, #[trigger] cells[j]),
                last == -1 ==> last_empty_pos.is_none(),
                last >= 0 ==> last_empty_pos == Some(cells[last]) && empty_at(chunks@, cells[last]),
                forall|m: int| last < m < k ==> !empty_at(chunks@, #[trigger] cells[m]),
            decreases cells.len() - k,
        {
            let world_block_pos = cells[k];
            match probe(chunks, world_block_pos) {
                Probe::Solid => {
                    proof {
                        assert forall|m: int, j: int|
                            is_first_hit(chunks@, cells@, m) && is_last_empty_before(
                                chunks@,
                                cells@,
                                j,
                                m,
                            ) implies last_empty_pos == Some(cells[j]) by {
                            if m < k {
                                assert(!solid_at(chunks@, cells[m]));
                            } else if k < m {
                                assert(!solid_at(chunks@, cells[k as int]));
                            }
                            if last < j {
                                assert(!empty_at(chunks@, cells[j]));
                            } else if j < last {
                                assert(!empty_at(chunks@, cells[last]));
                            }
                        }
                        assert forall|m: int|
                            is_first_hit(chunks@, cells@, m) && (forall|j: int|
                                0 <= j < m ==> !empty_at(
                                    chunks@,
                                    #[trigger] cells[j],
                                )) implies last_empty_pos.is_none() by {
                            if m < k {
                                assert(!solid_at(chunks@, cells[m]));
                            } else if k < m {
                                assert(!solid_at(chunks@, cells[k as int]));
                            }
                            if last >= 0 {
                                assert(!empty_at(chunks@, cells[last]));
                            }
                        }
                    }
                    return last_empty_pos;
                },
                Probe::Empty => {
                    last_empty_pos = Some(world_block_pos);
                    proof {
                        last = k as int;
                    }
                },
                Probe::Unloaded => {},
            }
            k += 1;
        }
        proof {
            assert forall|m: int| !is_first_hit(chunks@, cells@, m) by {
                if 0 <= m < cells.len() {
                    assert(!solid_at(chunks@, cells[m]));
                }
            }
        }
        None
    }

    /// Selects the hotbar slot `num`.
    pub fn change_selected_block(&mut self, num: usize)
        requires
            num < HOTBAR_SIZE,
        ensures
            *final(self) == (Player {
                selected_hotbar_slot: num,
                selected_block: old(self).hotbar[num as int],
                ..*old(self)
            }),
            final(self).wf(),
    {
        self.selected_hotbar_slot = num;
        self.selected_block = self.hotbar[num];
    }

    /// Puts the material `block_type` into the selected hotbar slot and
    /// selects it.
    pub fn set_hotbar_slot(&mut self, block_type: u32)
        requires
            old(self).wf(),
        ensures
            final(self).wf(),
            final(self).hotbar@ == old(self).hotbar@.update(
                old(self).selected_hotbar_slot as int,
                block_type,
            ),
            final(self).selected_block == block_type,
            final(self).selected_hotbar_slot == old(self).selected_hotbar_slot,
            final(self).movement == old(self).movement,
            final(self).cursor_locked == old(self).cursor_locked,
            final(self).show_inventory == old(self).show_inventory,
    {
        self.hotbar[self.selected_hotbar_slot] = block_type;
        self.selected_block = block_type;
    }

    /// The player after the key `key` went down (`state` set) or up, and
    /// whether the key means anything to the player. A movement key sets or
    /// clears its direction, and where two keys move the same way either of
    /// them does. A digit key, on going down, selects a hotbar slot. The key
    /// E, on going down, opens or closes the inventory and locks or frees the
    /// cursor with it.
    pub open spec fn after_key(self, key: Key, state: bool) -> (Player, bool) {
        match key {
            Key::KeyW | Key::ArrowUp => (
                Player { movement: Movement { forward: state, ..self.movement }, ..self },
                true,
            ),
            Key::KeyS | Key::ArrowDown => (
                Player { movement: Movement { backward: state, ..self.movement }, ..self },
                true,
            ),
            Key::KeyA | Key::ArrowLeft => (
                Player { movement: Movement { left: state, ..self.movement }, ..self },
                true,
            ),
            Key::KeyD | Key::ArrowRight => (
                Player { movement: Movement { right: state, ..self.movement }, ..self },
                true,
            ),
            Key::Space => (Player { movement: Movement { up: state, ..self.movement }, ..self }, true),
            Key::ShiftLeft => (
                Player { movement: Movement { down: state, ..self.movement }, ..self },
                true,
            ),
            Key::KeyE => if state {
                (
                    Player {
                        show_inventory: !self.show_inventory,
                        cursor_locked: !self.cursor_locked,
                        ..self
                    },
                    true,
                )
            } else {
                (self, false)
            },
            Key::Other => (self, false),
            _ => if state {
                let num = key.spec_hotbar_slot().unwrap();
                (
                    Player {
                        selected_hotbar_slot: num,
                        selected_block: self.hotbar[num as int],
                        ..self
                    },
                    true,
                )
            } else {
                (self, false)
            },
        }
    }

    /// Reacts to the key `key` going down (`state` set) or up. Returns
    /// whether the key means anything to the player.
    pub fn process_keyboard(&mut self, key: Key, state: bool) -> (handled: bool)
        ensures
            (*final(self), handled) == old(self).after_key(key, state),
            old(self).wf() ==> final(self).wf(),
    {
        match key {
            Key::KeyW | Key::ArrowUp => {
                self.movement.forward = state;
                true
            },
            Key::KeyS | Key::ArrowDown => {
                self.movement.backward = state;
                true
            },
            Key::KeyA | Key::ArrowLeft => {
                self.movement.left = state;
                true
            },
            Key::KeyD | Key::ArrowRight => {
                self.movement.right = state;
                true
            },
            Key::Space => {
                self.movement.up = state;
                true
            },
            Key::ShiftLeft => {
                self.movement.down = state;
                true
            },
            Key::KeyE => {
                if !state {
                    return false;
                }
                self.show_inventory = !self.show_inventory;
                self.cursor_locked = !self.cursor_locked;
                true
            },
            _ => {
                match key.hotbar_slot() {
                    Some(num) => {
                        if !state {
                            return false;
                        }
                        self.change_selected_block(num);
                        true
                    },
                    None => false,
                }
            },
        }
    }
}

} // verus!
