use vstd::prelude::*;
use vstd::string::StrSliceExecFns;

verus! {

/// A position, or a size, on the grid of button cells.
#[derive(Clone, Copy, Debug, PartialEq, Eq, Structural)]
pub struct Pos {
    pub x: u16,
    pub y: u16,
}

/// A button: its size in cells, the label drawn on it, and the command that
/// pressing it sends.
#[derive(Clone, Debug)]
pub struct Controller {
    pub size: Pos,
    pub name: Vec<u8>,
    pub action: Vec<u8>,
}

pub struct ControllerV {
    pub size: Pos,
    pub name: Seq<u8>,
    pub action: Seq<u8>,
}

impl View for Controller {
    type V = ControllerV;

    open spec fn view(&self) -> ControllerV {
        ControllerV { size: self.size, name: self.name@, action: self.action@ }
    }
}

impl Controller {
    pub fn duplicate(&self) -> (r: Controller)
        ensures
            r@ == self@,
    {
        Controller { size: self.size, name: self.name.clone(), action: self.action.clone() }
    }
}

/// What a cell of the grid holds: nothing, a part of a button whose top left
/// cell is at the position, or that top left cell, which holds the button.
#[derive(Clone, Debug)]
pub enum CellType {
    Blank,
    Pointer(Pos),
    Manager(Controller),
}

pub enum CellTypeV {
    Blank,
    Pointer(Pos),
    Manager(ControllerV),
}

/// A cell of the grid: what it holds, its tile when released and when
/// pressed, and whether it is pressed.
#[derive(Debug)]
pub struct Cell {
    pub cell_type: CellType,
    pub tile_index: (u16, u16),
    pub is_pressed: bool,
}

pub struct CellV {
    pub cell_type: CellTypeV,
    pub tile_index: (u16, u16),
    pub is_pressed: bool,
}

impl View for Cell {
    type V = CellV;

    open spec fn view(&self) -> CellV {
        CellV {
            cell_type: match self.cell_type {
                CellType::Blank => CellTypeV::Blank,
                CellType::Pointer(p) => CellTypeV::Pointer(p),
                CellType::Manager(c) => CellTypeV::Manager(c@),
            },
            tile_index: self.tile_index,
            is_pressed: self.is_pressed,
        }
    }
}

/// The tiles of a part of a button, by which of its four neighbours belong to
/// the same button.
pub open spec fn tiles_for(up: bool, down: bool, left: bool, right: bool) -> (u16, u16) {
    match (up, down, left, right) {
        (false, false, false, false) => (129, 132),
        (false, false, false, true) => (118, 134),
        (false, false, true, false) => (119, 135),
        (false, false, true, true) => (150, 151),
        (false, true, false, false) => (120, 121),
        (false, true, false, true) => (112, 115),
        (false, true, true, false) => (114, 117),
        (false, true, true, true) => (113, 116),
        (true, false, false, false) => (136, 137),
        (true, false, false, true) => (144, 147),
        (true, false, true, false) => (146, 149),
        (true, false, true, true) => (145, 148),
        (true, true, false, false) => (152, 153),
        (true, true, false, true) => (128, 131),
        (true, true, true, false) => (130, 133),
        (true, true, true, true) => (99, 99),
    }
}

/// The tiles of the part at offset (`dx`, `dy`) of a button of size `size`.
pub open spec fn tile_at(size: Pos, dx: int, dy: int) -> (u16, u16) {
    tiles_for(dy > 0, dy < size.y - 1, dx > 0, dx < size.x - 1)
}

/// The tiles of a blank cell.
pub open spec fn blank_tiles() -> (u16, u16) {
    (99, 99)
}

/// The tiles of a lone pointer cell.
pub open spec fn bar_tiles() -> (u16, u16) {
    (150, 151)
}

/// The tiles of the part at `pos` of a button of size `size`.
pub fn get_tile_index(size: Pos, pos: Pos) -> (r: (u16, u16))
    requires
        size.x >= 1,
        size.y >= 1,
    ensures
        r == tile_at(size, pos.x as int, pos.y as int),
{
    let up = pos.y > 0;
    let down = pos.y < size.y - 1;
    let left = pos.x > 0;
    let right = pos.x < size.x - 1;
    match (up, down, left, right) {
        (false, false, false, false) => (129, 132),
        (false, false, false, true) => (118, 134),
        (false, false, true, false) => (119, 135),
        (false, false, true, true) => (150, 151),
        (false, true, false, false) => (120, 121),
        (false, true, false, true) => (112, 115),
        (false, true, true, false) => (114, 117),
        (false, true, true, true) => (113, 116),
        (true, false, false, false) => (136, 137),
        (true, false, false, true) => (144, 147),
        (true, false, true, false) => (146, 149),
        (true, false, true, true) => (145, 148),
        (true, true, false, false) => (152, 153),
        (true, true, false, true) => (128, 131),
        (true, true, true, false) => (130, 133),
        (true, true, true, true) => (99, 99),
    }
}

pub open spec fn blank_cell() -> CellV {
    CellV { cell_type: CellTypeV::Blank, tile_index: blank_tiles(), is_pressed: false }
}

/// `(x, y)` lies on the button of size `size` whose top left cell is `pos`.
pub open spec fn in_rect(pos: Pos, size: Pos, x: int, y: int) -> bool {
    pos.x <= x < pos.x + size.x && pos.y <= y < pos.y + size.y
}

/// The cell at `(x, y)` of the button `c` placed at `pos`.
pub open spec fn button_cell(pos: Pos, c: ControllerV, x: int, y: int) -> CellV {
    if x == pos.x && y == pos.y {
        CellV { cell_type: CellTypeV::Manager(c), tile_index: tile_at(c.size, 0, 0), is_pressed: false }
    } else {
        CellV { cell_type: CellTypeV::Pointer(pos), tile_index: tile_at(c.size, x - pos.x, y - pos.y), is_pressed: false }
    }
}

/// The grid `g` with the button `c` placed at `pos`.
pub open spec fn placed(g: Seq<Seq<CellV>>, pos: Pos, c: ControllerV) -> Seq<Seq<CellV>> {
    Seq::new(g.len(), |x: int| Seq::new(g[x].len(), |y: int|
        if in_rect(pos, c.size, x, y) { button_cell(pos, c, x, y) } else { g[x][y] }))
}

/// The button grid of the keyboard and the cell under the cursor. The grid
/// is indexed by column, then by row.
#[derive(Debug)]
pub struct Interface {
    pub cells: Vec<Vec<Cell>>,
    pub cursor: Pos,
}

impl Interface {
    pub open spec fn grid(&self) -> Seq<Seq<CellV>> {
        self.cells@.map_values(|col: Vec<Cell>| col@.map_values(|c: Cell| c@))
    }

    pub open spec fn width(&self) -> nat {
        self.cells@.len()
    }

    pub open spec fn height(&self) -> nat {
        if self.cells@.len() > 0 {
            self.cells@[0]@.len()
        } else {
            0
        }
    }

    /// The columns have one height, and both sides fit in a `u16`.
    pub open spec fn wf(&self) -> bool {
        &&& 0 < self.width() <= u16::MAX
        &&& self.height() <= u16::MAX
        &&& forall|i: int| 0 <= i < self.cells@.len() ==> (#[trigger] self.cells@[i])@.len() == self.height()
    }

    /// A grid of `width` columns of `height` blank cells.
    pub fn blank(width: u16, height: u16) -> (r: Interface)
        requires
            width > 0,
        ensures
            r.wf(),
            r.width() == width,
            r.height() == height,
            r.cursor == (Pos { x: 0, y: 0 }),
            forall|x: int, y: int| 0 <= x < width && 0 <= y < height ==> #[trigger] r.grid()[x][y] == blank_cell(),
    {
        let mut cells: Vec<Vec<Cell>> = Vec::new();
        let mut i: u16 = 0;
        while i < width
            invariant
                0 <= i <= width,
                cells@.len() == i,
                forall|a: int| 0 <= a < i ==> (#[trigger] cells@[a])@.len() == height,
                forall|a: int, b: int| 0 <= a < i && 0 <= b < height ==> #[trigger] cells@[a]@[b]@ == blank_cell(),
            decreases width - i,
        {
            let mut col: Vec<Cell> = Vec::new();
            let mut j: u16 = 0;
            while j < height
                invariant
                    0 <= j <= height,
                    col@.len() == j,
                    forall|b: int| 0 <= b < j ==> #[trigger] col@[b]@ == blank_cell(),
                decreases height - j,
            {
                col.push(Cell { cell_type: CellType::Blank, tile_index: (99, 99), is_pressed: false });
                j = j + 1;
            }
            cells.push(col);
            i = i + 1;
        }
        Interface { cells, cursor: Pos { x: 0, y: 0 } }
    }

    /// Puts `c` at `(x, y)`.
    pub fn set_cell(&mut self, x: usize, y: usize, c: Cell)
        requires
            old(self).wf(),
            x < old(self).width(),
            y < old(self).height(),
        ensures
            final(self).wf(),
            final(self).width() == old(self).width(),
            final(self).height() == old(self).height(),
            final(self).cursor == old(self).cursor,
            final(self).grid() == old(self).grid().update(x as int, old(self).grid()[x as int].update(y as int, c@)),
    {
        let ghost g = self.grid();
        let ghost h = self.height();
        let ghost cv = c@;
        let mut col = self.cells.remove(x);
        proof {
            assert(col@.len() == h);
        }
        col.set(y, c);
        self.cells.insert(x, col);
        proof {
            assert forall|i: int| 0 <= i < self.cells@.len() implies (#[trigger] self.cells@[i])@.len() == h by {
                if i != x {
                    assert(self.cells@[i] == old(self).cells@[i]);
                }
            }
            assert(self.height() == h);
            assert(self.grid() =~~= g.update(x as int, g[x as int].update(y as int, cv)));
        }
    }

    /// Places `button` with its top left cell at `pos`: a button fills its
    /// whole size, its first cell holding it and the others pointing there.
    pub fn add_new_button(&mut self, pos: Pos, button: &Cell)
        requires
            old(self).wf(),
            pos.x < old(self).width(),
            pos.y < old(self).height(),
            button.cell_type matches CellType::Manager(c) ==> {
                &&& c.size.x >= 1
                &&& c.size.y >= 1
                &&& pos.x + c.size.x <= old(self).width()
                &&& pos.y + c.size.y <= old(self).height()
            },
        ensures
            final(self).wf(),
            final(self).width() == old(self).width(),
            final(self).height() == old(self).height(),
            final(self).cursor == old(self).cursor,
            final(self).grid() == match button.cell_type {
                CellType::Blank => old(self).grid().update(
                    pos.x as int,
                    old(self).grid()[pos.x as int].update(pos.y as int, blank_cell()),
                ),
                CellType::Pointer(p) => old(self).grid().update(
                    pos.x as int,
                    old(self).grid()[pos.x as int].update(
                        pos.y as int,
                        CellV { cell_type: CellTypeV::Pointer(p), tile_index: bar_tiles(), is_pressed: false },
                    ),
                ),
                CellType::Manager(c) => placed(old(self).grid(), pos, c@),
            },
    {
        match &button.cell_type {
            CellType::Blank => {
                self.set_cell(
                    pos.x as usize,
                    pos.y as usize,
                    Cell { cell_type: CellType::Blank, tile_index: (99, 99), is_pressed: false },
                );
            },
            CellType::Pointer(p) => {
                self.set_cell(
                    pos.x as usize,
                    pos.y as usize,
                    Cell { cell_type: CellType::Pointer(*p), tile_index: (150, 151), is_pressed: false },
                );
            },
            CellType::Manager(controller) => {
                self.place_button(pos, controller);
            },
        }
    }

    fn place_button(&mut self, pos: Pos, controller: &Controller)
        requires
            old(self).wf(),
            controller.size.x >= 1,
            controller.size.y >= 1,
            pos.x + controller.size.x <= old(self).width(),
            pos.y + controller.size.y <= old(self).height(),
        ensures
            final(self).wf(),
            final(self).width() == old(self).width(),
            final(self).height() == old(self).height(),
            final(self).cursor == old(self).cursor,
            final(self).grid() == placed(old(self).grid(), pos, controller@),
    {
        let ghost g = self.grid();
        let ghost cv = controller@;
        let size = controller.size;
        let mut dx: u16 = 0;
        proof {
            assert(self.grid() =~~= Seq::new(g.len(), |x: int| Seq::new(g[x].len(), |y: int|
                if in_rect(pos, size, x, y) && x - pos.x < dx { button_cell(pos, cv, x, y) } else { g[x][y] })));
        }
        while dx < size.x
            invariant
                self.wf(),
                self.width() == g.len(),
                self.height() == old(self).height(),
                self.cursor == old(self).cursor,
                g == old(self).grid(),
                cv == controller@,
                size == controller.size,
                1 <= size.y,
                pos.x + size.x <= self.width(),
                pos.y + size.y <= self.height(),
                0 <= dx <= size.x,
                self.grid() == Seq::new(g.len(), |x: int| Seq::new(g[x].len(), |y: int|
                    if in_rect(pos, size, x, y) && x - pos.x < dx { button_cell(pos, cv, x, y) } else { g[x][y] })),
            decreases size.x - dx,
        {
            let mut dy: u16 = 0;
            proof {
                assert(self.grid() =~~= Seq::new(g.len(), |x: int| Seq::new(g[x].len(), |y: int|
                    if in_rect(pos, size, x, y) && (x - pos.x < dx || (x - pos.x == dx && y - pos.y < dy)) {
                        button_cell(pos, cv, x, y)
                    } else {
                        g[x][y]
                    })));
            }
            while dy < size.y
                invariant
                    self.wf(),
                    self.width() == g.len(),
                    self.height() == old(self).height(),
                    self.cursor == old(self).cursor,
                    g == old(self).grid(),
                    cv == controller@,
                    size == controller.size,
                    1 <= size.y,
                    pos.x + size.x <= self.width(),
                    pos.y + size.y <= self.height(),
                    0 <= dx < size.x,
                    0 <= dy <= size.y,
                    self.grid() == Seq::new(g.len(), |x: int| Seq::new(g[x].len(), |y: int|
                        if in_rect(pos, size, x, y) && (x - pos.x < dx || (x - pos.x == dx && y - pos.y < dy)) {
                            button_cell(pos, cv, x, y)
                        } else {
                            g[x][y]
                        })),
                decreases size.y - dy,
            {
                let tile = get_tile_index(size, Pos { x: dx, y: dy });
                let cell = if dx == 0 && dy == 0 {
                    Cell { cell_type: CellType::Manager(controller.duplicate()), tile_index: tile, is_pressed: false }
                } else {
                    Cell { cell_type: CellType::Pointer(pos), tile_index: tile, is_pressed: false }
                };
                let ghost before = self.grid();
                self.set_cell((pos.x + dx) as usize, (pos.y + dy) as usize, cell);
                proof {
                    assert(self.grid() =~~= Seq::new(g.len(), |x: int| Seq::new(g[x].len(), |y: int|
                        if in_rect(pos, size, x, y) && (x - pos.x < dx || (x - pos.x == dx && y - pos.y < dy + 1)) {
                            button_cell(pos, cv, x, y)
                        } else {
                            g[x][y]
                        })));
                }
                dy = dy + 1;
            }
            proof {
                assert(self.grid() =~~= Seq::new(g.len(), |x: int| Seq::new(g[x].len(), |y: int|
                    if in_rect(pos, size, x, y) && x - pos.x < dx + 1 { button_cell(pos, cv, x, y) } else { g[x][y] })));
            }
            dx = dx + 1;
        }
        proof {
            assert(self.grid() =~~= placed(g, pos, cv));
        }
    }

    /// Places a button of size `size` at `pos`, labelled `name`, that sends
    /// `action`.
    pub fn add_manager(&mut self, pos: (u16, u16), size: (u16, u16), name: &[u8], action: &[u8])
        requires
            old(self).wf(),
            size.0 >= 1,
            size.1 >= 1,
            pos.0 + size.0 <= old(self).width(),
            pos.1 + size.1 <= old(self).height(),
        ensures
            final(self).wf(),
            final(self).width() == old(self).width(),
            final(self).height() == old(self).height(),
            final(self).cursor == old(self).cursor,
            final(self).grid() == placed(
                old(self).grid(),
                Pos { x: pos.0, y: pos.1 },
                ControllerV { size: Pos { x: size.0, y: size.1 }, name: name@, action: action@ },
            ),
            old(self).layout_wf() ==> final(self).layout_wf(),
            all_released(old(self).grid()) ==> all_released(final(self).grid()),
            buttons_wf(old(self).grid()) && rect_blank(old(self).grid(), Pos { x: pos.0, y: pos.1 }, Pos { x: size.0, y: size.1 })
                ==> buttons_wf(final(self).grid()),
    {
        let controller = Controller {
            size: Pos { x: size.0, y: size.1 },
            name: vstd::slice::slice_to_vec(name),
            action: vstd::slice::slice_to_vec(action),
        };
        let cell = Cell { cell_type: CellType::Manager(controller), tile_index: (129, 132), is_pressed: false };
        self.add_new_button(Pos { x: pos.0, y: pos.1 }, &cell);
        proof {
            let g = old(self).grid();
            let cv = ControllerV { size: Pos { x: size.0, y: size.1 }, name: name@, action: action@ };
            if all_released(g) {
                lemma_placed_keeps_released(g, Pos { x: pos.0, y: pos.1 }, cv);
            }
            if buttons_wf(g) && rect_blank(g, Pos { x: pos.0, y: pos.1 }, cv.size) {
                assert forall|i: int| 0 <= i < g.len() implies pos.1 + size.1 <= (#[trigger] g[i]).len() <= u16::MAX by {
                    assert(old(self).cells@[i]@.len() == old(self).height());
                }
                lemma_placed_keeps_buttons(g, Pos { x: pos.0, y: pos.1 }, cv);
            }
            if old(self).layout_wf() {
                let g = old(self).grid();
                assert forall|x: int, y: int| 0 <= x < self.width() && 0 <= y < self.height() implies
                    ((#[trigger] self.grid()[x][y]).cell_type matches CellTypeV::Pointer(m) ==> m.x < self.width() && m.y < self.height()) by {
                    assert(g[x].len() == self.height());
                }
            }
        }
    }
}

} // verus!

verus! {

/// The state of the buttons in one frame, as the host reads them.
#[derive(Clone, Copy, Debug, PartialEq, Eq, Structural)]
pub struct Buttons {
    pub a_released: bool,
    pub a_just_pressed: bool,
    pub a_just_released: bool,
    pub up: bool,
    pub down: bool,
    pub left: bool,
    pub right: bool,
    pub b: bool,
    pub start: bool,
    pub select: bool,
}

/// The size of the button whose cell is at `c`, one cell for any other cell.
pub open spec fn button_size(g: Seq<Seq<CellV>>, c: Pos) -> Pos {
    match g[c.x as int][c.y as int].cell_type {
        CellTypeV::Manager(ctl) => ctl.size,
        _ => Pos { x: 1, y: 1 },
    }
}

/// One step back along an axis of length `n`, wrapping round.
pub open spec fn step_back(v: int, n: int) -> int {
    if v == 0 { n - 1 } else { v - 1 }
}

/// A jump of `by` along an axis of length `n`, back to the start past the end.
pub open spec fn step_on(v: int, by: int, n: int) -> int {
    if v == n - 1 { 0 } else if v + by > n - 1 { 0 } else { v + by }
}

/// Where the arrows move the cursor `c` while A is up; the cursor jumps over
/// the button it is on.
pub open spec fn moved(g: Seq<Seq<CellV>>, c: Pos, input: Buttons) -> (int, int) {
    let w = g.len() as int;
    let h = g[0].len() as int;
    let size = button_size(g, c);
    if !input.a_released {
        (c.x as int, c.y as int)
    } else {
        let y1 = if input.up { step_back(c.y as int, h) } else { c.y as int };
        let y2 = if input.down { step_on(y1, size.y as int, h) } else { y1 };
        let x1 = if input.left { step_back(c.x as int, w) } else { c.x as int };
        let x2 = if input.right { step_on(x1, size.x as int, w) } else { x1 };
        (x2, y2)
    }
}

/// The position that the cell at `p` points to, or `p` itself.
pub open spec fn owner(g: Seq<Seq<CellV>>, p: (int, int)) -> (int, int) {
    match g[p.0][p.1].cell_type {
        CellTypeV::Pointer(m) => (m.x as int, m.y as int),
        _ => p,
    }
}

/// Where the cursor ends after the buttons `input`: moved, then on the first
/// cell of the button it stands on.
pub open spec fn cursor_after(g: Seq<Seq<CellV>>, c: Pos, input: Buttons) -> (int, int) {
    let p1 = moved(g, c, input);
    let p2 = if input.a_just_released { owner(g, p1) } else { p1 };
    owner(g, p2)
}

/// What the host hears of the buttons `input`: 0 for nothing, 1 for a press
/// or a move, 2 for a release, 3 for the delete button.
pub open spec fn input_code(g: Seq<Seq<CellV>>, c: Pos, input: Buttons) -> i32 {
    if input.select || input.start {
        2
    } else if input.b {
        3
    } else if input.a_just_released {
        2
    } else if input.a_just_pressed {
        1
    } else if input.a_released && (input.up || input.down || input.left || input.right) {
        1
    } else {
        0
    }
}

/// The command sent by pressing A on the cell at `p`.
pub open spec fn pressed_action(g: Seq<Seq<CellV>>, p: (int, int)) -> Seq<u8> {
    match g[p.0][p.1].cell_type {
        CellTypeV::Manager(ctl) => ctl.action,
        CellTypeV::Pointer(m) => match g[m.x as int][m.y as int].cell_type {
            CellTypeV::Manager(ctl) => ctl.action,
            _ => seq![],
        },
        _ => seq![],
    }
}

/// The command that the buttons `input` send.
pub open spec fn input_action(g: Seq<Seq<CellV>>, c: Pos, input: Buttons) -> Seq<u8> {
    if input.select {
        seq![97u8, 110u8, 115u8]
    } else if input.start {
        seq![99u8, 109u8, 100u8, 95u8, 101u8, 110u8, 116u8, 101u8, 114u8]
    } else if input.a_just_pressed {
        pressed_action(g, moved(g, c, input))
    } else {
        seq![]
    }
}

/// The grids `a` and `b` differ at most in which cells are pressed.
pub open spec fn same_layout(a: Seq<Seq<CellV>>, b: Seq<Seq<CellV>>) -> bool {
    &&& a.len() == b.len()
    &&& forall|x: int| 0 <= x < a.len() ==> (#[trigger] a[x]).len() == b[x].len()
    &&& forall|x: int, y: int| 0 <= x < a.len() && 0 <= y < a[x].len() ==> {
        &&& (#[trigger] a[x][y]).cell_type == b[x][y].cell_type
        &&& a[x][y].tile_index == b[x][y].tile_index
    }
}

impl Interface {
    /// The cursor stands on the grid and every pointer cell points into it.
    pub open spec fn layout_wf(&self) -> bool {
        &&& self.wf()
        &&& self.cursor.x < self.width()
        &&& self.cursor.y < self.height()
        &&& forall|x: int, y: int| 0 <= x < self.width() && 0 <= y < self.height() ==>
            ((#[trigger] self.grid()[x][y]).cell_type matches CellTypeV::Pointer(m) ==> m.x < self.width() && m.y < self.height())
    }

    fn cell_ref(&self, x: u16, y: u16) -> (r: &Cell)
        requires
            self.wf(),
            x < self.width(),
            y < self.height(),
        ensures
            r@ == self.grid()[x as int][y as int],
    {
        &self.cells[x as usize][y as usize]
    }

    /// Marks the cell at `(x, y)` pressed or released.
    fn set_pressed(&mut self, x: usize, y: usize, pressed: bool)
        requires
            old(self).wf(),
            x < old(self).width(),
            y < old(self).height(),
        ensures
            final(self).wf(),
            final(self).width() == old(self).width(),
            final(self).height() == old(self).height(),
            final(self).cursor == old(self).cursor,
            same_layout(old(self).grid(), final(self).grid()),
            final(self).grid()[x as int][y as int].is_pressed == pressed,
            forall|i: int, j: int| 0 <= i < old(self).width() && 0 <= j < old(self).height() && !(i == x && j == y)
                ==> #[trigger] final(self).grid()[i][j] == old(self).grid()[i][j],
    {
        let ghost g = self.grid();
        let mut col = self.cells.remove(x);
        let old_cell = col.remove(y);
        let cell = Cell { cell_type: old_cell.cell_type, tile_index: old_cell.tile_index, is_pressed: pressed };
        col.insert(y, cell);
        self.cells.insert(x, col);
        proof {
            assert forall|i: int| 0 <= i < self.cells@.len() implies (#[trigger] self.cells@[i])@.len() == old(self).height() by {
                if i != x {
                    assert(self.cells@[i] == old(self).cells@[i]);
                }
            }
            assert(self.grid() =~~= g.update(x as int, g[x as int].update(y as int, cell@)));
        }
    }

    /// Marks pressed or released every cell of the button of size `size`
    /// whose first cell is `at`, as far as it lies on the grid.
    fn press_button(&mut self, at: Pos, size: Pos, pressed: bool)
        requires
            old(self).wf(),
        ensures
            final(self).wf(),
            final(self).width() == old(self).width(),
            final(self).height() == old(self).height(),
            final(self).cursor == old(self).cursor,
            same_layout(old(self).grid(), final(self).grid()),
            forall|x: int, y: int| 0 <= x < old(self).width() && 0 <= y < old(self).height() ==>
                (#[trigger] final(self).grid()[x][y]).is_pressed == if in_rect(at, size, x, y) {
                    pressed
                } else {
                    old(self).grid()[x][y].is_pressed
                },
    {
        let ghost g = self.grid();
        let w = self.cells.len();
        let h = self.cells[0].len();
        let mut dx: u16 = 0;
        while dx < size.x
            invariant
                self.wf(),
                w == self.width() == g.len(),
                h == self.height(),
                self.cursor == old(self).cursor,
                g == old(self).grid(),
                same_layout(g, self.grid()),
                forall|x: int, y: int| 0 <= x < w && 0 <= y < h ==>
                    (#[trigger] self.grid()[x][y]).is_pressed == if in_rect(at, size, x, y) && x - at.x < dx {
                        pressed
                    } else {
                        g[x][y].is_pressed
                    },
            decreases size.x - dx,
        {
            let mut dy: u16 = 0;
            while dy < size.y
                invariant
                    self.wf(),
                    w == self.width() == g.len(),
                    h == self.height(),
                    self.cursor == old(self).cursor,
                    g == old(self).grid(),
                    same_layout(g, self.grid()),
                    0 <= dx < size.x,
                    forall|x: int, y: int| 0 <= x < w && 0 <= y < h ==>
                        (#[trigger] self.grid()[x][y]).is_pressed == if in_rect(at, size, x, y) && (x - at.x < dx
                            || (x - at.x == dx && y - at.y < dy)) {
                            pressed
                        } else {
                            g[x][y].is_pressed
                        },
                decreases size.y - dy,
            {
                let x: usize = at.x as usize + dx as usize;
                let y: usize = at.y as usize + dy as usize;
                let ghost before = self.grid();
                if x < w && y < h {
                    self.set_pressed(x, y, pressed);
                    proof {
                        assert forall|a: int, b: int| 0 <= a < g.len() && 0 <= b < g[a].len() implies
                            (#[trigger] g[a][b]).cell_type == self.grid()[a][b].cell_type
                            && g[a][b].tile_index == self.grid()[a][b].tile_index by {
                            assert(before[a][b].cell_type == self.grid()[a][b].cell_type);
                        }
                    }
                }
                proof {
                    assert forall|a: int, b: int| 0 <= a < w && 0 <= b < h implies
                        (#[trigger] self.grid()[a][b]).is_pressed == if in_rect(at, size, a, b) && (a - at.x < dx
                            || (a - at.x == dx && b - at.y < dy + 1)) {
                            pressed
                        } else {
                            g[a][b].is_pressed
                        } by {
                        if !(a == x && b == y) {
                            assert(before[a][b].is_pressed == self.grid()[a][b].is_pressed);
                        }
                    }
                }
                dy = dy + 1;
            }
            dx = dx + 1;
        }
    }
}

} // verus!

verus! {

impl Interface {
    /// The first cell, size and command of the button that the cell at
    /// `(x, y)` belongs to.
    fn owner_button(&self, x: u16, y: u16) -> (r: Option<(Pos, Pos, Vec<u8>)>)
        requires
            self.layout_wf(),
            x < self.width(),
            y < self.height(),
        ensures
            match r {
                Some((at, size, act)) => act@ == pressed_action(self.grid(), (x as int, y as int)),
                None => pressed_action(self.grid(), (x as int, y as int)) == Seq::<u8>::empty(),
            },
    {
        proof {
            assert(self.grid()[x as int][y as int] == self.grid()[x as int][y as int]);
        }
        match &self.cell_ref(x, y).cell_type {
            CellType::Manager(c) => Some((Pos { x, y }, c.size, c.action.clone())),
            CellType::Pointer(m) => {
                let m = *m;
                match &self.cell_ref(m.x, m.y).cell_type {
                    CellType::Manager(c) => Some((m, c.size, c.action.clone())),
                    _ => None,
                }
            },
            CellType::Blank => None,
        }
    }

    /// The cell that the cell at `(x, y)` points to, or `(x, y)` itself.
    fn owner_of(&self, x: u16, y: u16) -> (r: Pos)
        requires
            self.layout_wf(),
            x < self.width(),
            y < self.height(),
        ensures
            (r.x as int, r.y as int) == owner(self.grid(), (x as int, y as int)),
            r.x < self.width(),
            r.y < self.height(),
    {
        proof {
            assert(self.grid()[x as int][y as int] == self.grid()[x as int][y as int]);
        }
        match &self.cell_ref(x, y).cell_type {
            CellType::Pointer(m) => *m,
            _ => Pos { x, y },
        }
    }

    /// Where the arrows of `input` move the cursor.
    fn moved_cursor(&self, input: Buttons) -> (r: Pos)
        requires
            self.layout_wf(),
        ensures
            (r.x as int, r.y as int) == moved(self.grid(), self.cursor, input),
            r.x < self.width(),
            r.y < self.height(),
    {
        let w = self.cells.len() as u16;
        let h = self.cells[0].len() as u16;
        let mut cx = self.cursor.x;
        let mut cy = self.cursor.y;
        let size = match &self.cell_ref(cx, cy).cell_type {
            CellType::Manager(c) => c.size,
            _ => Pos { x: 1, y: 1 },
        };
        if input.a_released {
            if input.up {
                cy = if cy == 0 { h - 1 } else { cy - 1 };
            }
            if input.down {
                if cy == h - 1 {
                    cy = 0;
                } else {
                    let ny: u32 = cy as u32 + size.y as u32;
                    cy = if ny > (h - 1) as u32 { 0 } else { ny as u16 };
                }
            }
            if input.left {
                cx = if cx == 0 { w - 1 } else { cx - 1 };
            }
            if input.right {
                if cx == w - 1 {
                    cx = 0;
                } else {
                    let nx: u32 = cx as u32 + size.x as u32;
                    cx = if nx > (w - 1) as u32 { 0 } else { nx as u16 };
                }
            }
        }
        Pos { x: cx, y: cy }
    }

    /// Presses the button under the cursor and gives its command.
    fn press_at_cursor(&mut self) -> (r: Vec<u8>)
        requires
            old(self).layout_wf(),
        ensures
            final(self).layout_wf(),
            final(self).width() == old(self).width(),
            final(self).height() == old(self).height(),
            final(self).cursor == old(self).cursor,
            same_layout(old(self).grid(), final(self).grid()),
            r@ == pressed_action(old(self).grid(), (old(self).cursor.x as int, old(self).cursor.y as int)),
            final(self).grid()[old(self).cursor.x as int][old(self).cursor.y as int].is_pressed,
    {
        let ghost g = self.grid();
        let cx = self.cursor.x;
        let cy = self.cursor.y;
        let found = self.owner_button(cx, cy);
        self.set_pressed(cx as usize, cy as usize, true);
        proof {
            lemma_layout_kept(&*old(self), &*self);
        }
        match found {
            Some((at, bsize, act)) => {
                let ghost s1 = *self;
                self.press_button(at, bsize, true);
                proof {
                    lemma_same_layout_trans(g, s1.grid(), self.grid());
                    lemma_layout_kept(&*old(self), &*self);
                }
                act
            },
            None => Vec::new(),
        }
    }

    /// Puts the cursor on the first cell of the button under it. With `whole`
    /// the cell and its button are released; without, a button is released
    /// only where the cursor stood on one of its other cells.
    fn release_at_cursor(&mut self, whole: bool)
        requires
            old(self).layout_wf(),
        ensures
            final(self).layout_wf(),
            final(self).width() == old(self).width(),
            final(self).height() == old(self).height(),
            same_layout(old(self).grid(), final(self).grid()),
            (final(self).cursor.x as int, final(self).cursor.y as int)
                == owner(old(self).grid(), (old(self).cursor.x as int, old(self).cursor.y as int)),
            !whole && !(old(self).grid()[old(self).cursor.x as int][old(self).cursor.y as int].cell_type is Pointer)
                ==> final(self).grid() == old(self).grid(),
            forall|x: int, y: int| 0 <= x < old(self).width() && 0 <= y < old(self).height()
                && !old(self).grid()[x][y].is_pressed ==> !(#[trigger] final(self).grid()[x][y]).is_pressed,
            whole ==> !final(self).grid()[old(self).cursor.x as int][old(self).cursor.y as int].is_pressed,
    {
        let ghost g = self.grid();
        let cx = self.cursor.x;
        let cy = self.cursor.y;
        let o = self.owner_of(cx, cy);
        let on_part = matches!(self.cell_ref(cx, cy).cell_type, CellType::Pointer(_));
        if whole {
            self.set_pressed(cx as usize, cy as usize, false);
            proof {
                lemma_layout_kept(&*old(self), &*self);
            }
        }
        let ghost s1 = *self;
        if whole || on_part {
            let found = self.owner_button(cx, cy);
            if let Some((at, bsize, _)) = found {
                self.press_button(at, bsize, false);
            }
        }
        proof {
            lemma_same_layout_trans(g, s1.grid(), self.grid());
        }
        self.cursor = o;
        proof {
            lemma_layout_kept(&*old(self), &*self);
        }
    }

    /// Moves the cursor and presses or releases buttons as the buttons
    /// `input` ask, and reports what happened with the command sent.
    pub fn handle_input(&mut self, input: Buttons) -> (r: (i32, Vec<u8>))
        requires
            old(self).layout_wf(),
        ensures
            final(self).layout_wf(),
            final(self).width() == old(self).width(),
            final(self).height() == old(self).height(),
            same_layout(old(self).grid(), final(self).grid()),
            r.0 == input_code(old(self).grid(), old(self).cursor, input),
            r.1@ == input_action(old(self).grid(), old(self).cursor, input),
            (final(self).cursor.x as int, final(self).cursor.y as int) == cursor_after(old(self).grid(), old(self).cursor, input),
            ({
                let m = moved(old(self).grid(), old(self).cursor, input);
                &&& input.a_just_pressed && !input.a_just_released && !(old(self).grid()[m.0][m.1].cell_type is Pointer)
                    ==> final(self).grid()[m.0][m.1].is_pressed
                &&& input.a_just_released ==> !final(self).grid()[m.0][m.1].is_pressed
            }),
    {
        let ghost g = self.grid();
        let p = self.moved_cursor(input);
        self.cursor = p;
        proof {
            lemma_layout_kept(&*old(self), &*self);
        }
        let mut action: Vec<u8> = Vec::new();
        if input.a_just_pressed {
            let ghost s0 = *self;
            action = self.press_at_cursor();
            proof {
                lemma_same_layout_trans(g, s0.grid(), self.grid());
                lemma_same_layout_cell(g, s0.grid(), p.x as int, p.y as int);
            }
        }
        if input.a_just_released {
            let ghost s0 = *self;
            self.release_at_cursor(true);
            proof {
                lemma_same_layout_trans(g, s0.grid(), self.grid());
                lemma_same_layout_cell(g, s0.grid(), p.x as int, p.y as int);
            }
        }
        let ghost s0 = *self;
        self.release_at_cursor(false);
        proof {
            lemma_same_layout_trans(g, s0.grid(), self.grid());
            lemma_same_layout_cell(g, s0.grid(), s0.cursor.x as int, s0.cursor.y as int);
        }
        let mut code: i32 = 0;
        if input.a_released && (input.up || input.down || input.left || input.right) {
            code = 1;
        }
        if input.a_just_pressed {
            code = 1;
        }
        if input.a_just_released {
            code = 2;
        }
        if input.b {
            code = 3;
        }
        if input.start {
            code = 2;
            action = vec![99u8, 109u8, 100u8, 95u8, 101u8, 110u8, 116u8, 101u8, 114u8];
            assert(action@ =~= seq![99u8, 109u8, 100u8, 95u8, 101u8, 110u8, 116u8, 101u8, 114u8]);
        }
        if input.select {
            code = 2;
            action = vec![97u8, 110u8, 115u8];
            assert(action@ =~= seq![97u8, 110u8, 115u8]);
        }
        (code, action)
    }
}

/// Grids of one layout agree on where a cell points and what it sends.
proof fn lemma_same_layout_cell(a: Seq<Seq<CellV>>, b: Seq<Seq<CellV>>, x: int, y: int)
    requires
        same_layout(a, b),
        0 <= x < a.len(),
        0 <= y < a[x].len(),
        a[x][y].cell_type matches CellTypeV::Pointer(m) ==> 0 <= m.x < a.len() && m.y < a[m.x as int].len(),
    ensures
        owner(a, (x, y)) == owner(b, (x, y)),
        pressed_action(a, (x, y)) == pressed_action(b, (x, y)),
{
    assert(a[x][y].cell_type == b[x][y].cell_type);
    if let CellTypeV::Pointer(m) = a[x][y].cell_type {
        assert(a[m.x as int][m.y as int].cell_type == b[m.x as int][m.y as int].cell_type);
    }
}

proof fn lemma_same_layout_trans(a: Seq<Seq<CellV>>, b: Seq<Seq<CellV>>, c: Seq<Seq<CellV>>)
    requires
        same_layout(a, b),
        same_layout(b, c),
    ensures
        same_layout(a, c),
{
    assert forall|x: int, y: int| 0 <= x < a.len() && 0 <= y < a[x].len() implies
        (#[trigger] a[x][y]).cell_type == c[x][y].cell_type && a[x][y].tile_index == c[x][y].tile_index by {
        assert(b[x][y].cell_type == c[x][y].cell_type);
    }
}

proof fn lemma_layout_kept(before: &Interface, after: &Interface)
    requires
        before.layout_wf(),
        after.wf(),
        same_layout(before.grid(), after.grid()),
        after.cursor.x < after.width(),
        after.cursor.y < after.height(),
    ensures
        after.layout_wf(),
{
    assert(after.width() == before.width());
    assert(before.grid()[0].len() == after.grid()[0].len());
    assert forall|x: int, y: int| 0 <= x < after.width() && 0 <= y < after.height() implies
        ((#[trigger] after.grid()[x][y]).cell_type matches CellTypeV::Pointer(m) ==> m.x < after.width() && m.y < after.height()) by {
        assert(before.grid()[x].len() == after.grid()[x].len());
        assert(before.grid()[x][y].cell_type == after.grid()[x][y].cell_type);
    }
}


/// The background tile drawn at the cell `(x, y)`: the released or pressed
/// tile of the cell, and none for a part of a button that is not there.
pub open spec fn drawn_tile(g: Seq<Seq<CellV>>, x: int, y: int) -> Option<u16> {
    let c = g[x][y];
    let shown = if c.is_pressed { c.tile_index.1 } else { c.tile_index.0 };
    match c.cell_type {
        CellTypeV::Blank => Some(blank_tiles().0),
        CellTypeV::Pointer(m) => if g[m.x as int][m.y as int].cell_type is Manager {
            Some(shown)
        } else {
            None
        },
        CellTypeV::Manager(_) => Some(shown),
    }
}

/// The pixel positions of the four corner sprites of the cursor, clockwise
/// from the top left, around the button under it, for a keyboard whose first
/// cell is drawn at cell `origin` of the screen.
pub open spec fn cursor_corners_of(g: Seq<Seq<CellV>>, cursor: Pos, origin: Pos) -> Seq<(int, int)> {
    let extra = match g[cursor.x as int][cursor.y as int].cell_type {
        CellTypeV::Manager(c) => (c.size.x - 1, c.size.y - 1),
        _ => (0int, 0int),
    };
    let left = (cursor.x + origin.x) * 8 - 1;
    let top = (cursor.y + origin.y) * 8 - 1;
    let right = (cursor.x + origin.x + extra.0) * 8 + 1;
    let bottom = (cursor.y + origin.y + extra.1) * 8 + 1;
    seq![(left, top), (right, top), (right, bottom), (left, bottom)]
}

impl Interface {
    /// The background tile to draw at `(x, y)`.
    pub fn tile_to_draw(&self, x: u16, y: u16) -> (r: Option<u16>)
        requires
            self.layout_wf(),
            x < self.width(),
            y < self.height(),
        ensures
            r == drawn_tile(self.grid(), x as int, y as int),
    {
        let c = self.cell_ref(x, y);
        let shown = if c.is_pressed { c.tile_index.1 } else { c.tile_index.0 };
        match &c.cell_type {
            CellType::Blank => Some(99u16),
            CellType::Pointer(m) => {
                if matches!(self.cell_ref(m.x, m.y).cell_type, CellType::Manager(_)) {
                    Some(shown)
                } else {
                    None
                }
            },
            CellType::Manager(_) => Some(shown),
        }
    }

    /// Where to draw the four corner sprites of the cursor.
    pub fn cursor_corners(&self, origin: Pos) -> (r: Vec<(i32, i32)>)
        requires
            self.layout_wf(),
        ensures
            r@.len() == 4,
            forall|k: int| 0 <= k < 4 ==> (#[trigger] r@[k]).0 as int == cursor_corners_of(self.grid(), self.cursor, origin)[k].0
                && r@[k].1 as int == cursor_corners_of(self.grid(), self.cursor, origin)[k].1,
    {
        let (ex, ey): (i32, i32) = match &self.cell_ref(self.cursor.x, self.cursor.y).cell_type {
            CellType::Manager(c) => (c.size.x as i32 - 1, c.size.y as i32 - 1),
            _ => (0, 0),
        };
        let cx = self.cursor.x as i32 + origin.x as i32;
        let cy = self.cursor.y as i32 + origin.y as i32;
        let left = cx * 8 - 1;
        let top = cy * 8 - 1;
        let right = (cx + ex) * 8 + 1;
        let bottom = (cy + ey) * 8 + 1;
        let mut r: Vec<(i32, i32)> = Vec::new();
        r.push((left, top));
        r.push((right, top));
        r.push((right, bottom));
        r.push((left, bottom));
        r
    }
}


/// No cell of `g` is pressed.
pub open spec fn all_released(g: Seq<Seq<CellV>>) -> bool {
    forall|x: int, y: int| 0 <= x < g.len() && 0 <= y < g[x].len() ==> !(#[trigger] g[x][y]).is_pressed
}

/// Every cell of the rectangle of size `size` at `pos` is blank.
pub open spec fn rect_blank(g: Seq<Seq<CellV>>, pos: Pos, size: Pos) -> bool {
    forall|x: int, y: int| in_rect(pos, size, x, y) ==> (#[trigger] g[x][y]).cell_type == CellTypeV::Blank
}

/// A part of a button at `(x, y)` points to a button whose rectangle holds it.
pub open spec fn points_home(g: Seq<Seq<CellV>>, x: int, y: int) -> bool {
    g[x][y].cell_type matches CellTypeV::Pointer(p) ==> {
        &&& p.x < g.len()
        &&& p.y < g[p.x as int].len()
        &&& g[p.x as int][p.y as int].cell_type matches CellTypeV::Manager(c) && in_rect(p, c.size, x, y)
    }
}

/// A button at `(x, y)` fits in the grid and the rest of its rectangle points
/// to it.
pub open spec fn covers_rect(g: Seq<Seq<CellV>>, x: int, y: int) -> bool {
    g[x][y].cell_type matches CellTypeV::Manager(c) ==> {
        &&& c.size.x >= 1
        &&& c.size.y >= 1
        &&& x + c.size.x <= g.len()
        &&& forall|i: int| x <= i < x + c.size.x ==> y + c.size.y <= (#[trigger] g[i]).len()
        &&& forall|i: int, j: int| in_rect(Pos { x: x as u16, y: y as u16 }, c.size, i, j) && !(i == x && j == y)
            ==> (#[trigger] g[i][j]).cell_type == CellTypeV::Pointer(Pos { x: x as u16, y: y as u16 })
    }
}

/// Every button and every part of one in `g` agree with each other.
pub open spec fn buttons_wf(g: Seq<Seq<CellV>>) -> bool {
    forall|x: int, y: int| 0 <= x < g.len() && 0 <= y < g[x].len() ==> points_home(g, x, y) && covers_rect(g, x, y)
}

proof fn lemma_placed_keeps_released(g: Seq<Seq<CellV>>, pos: Pos, c: ControllerV)
    requires
        all_released(g),
    ensures
        all_released(placed(g, pos, c)),
{
    let h = placed(g, pos, c);
    assert forall|x: int, y: int| 0 <= x < h.len() && 0 <= y < h[x].len() implies !(#[trigger] h[x][y]).is_pressed by {
        if !in_rect(pos, c.size, x, y) {
            assert(!g[x][y].is_pressed);
        }
    }
}

proof fn lemma_placed_keeps_buttons(g: Seq<Seq<CellV>>, pos: Pos, c: ControllerV)
    requires
        buttons_wf(g),
        rect_blank(g, pos, c.size),
        c.size.x >= 1,
        c.size.y >= 1,
        pos.x + c.size.x <= g.len(),
        forall|i: int| 0 <= i < g.len() ==> pos.y + c.size.y <= (#[trigger] g[i]).len() <= u16::MAX,
        g.len() <= u16::MAX,
    ensures
        buttons_wf(placed(g, pos, c)),
{
    let h = placed(g, pos, c);
    assert forall|x: int, y: int| 0 <= x < h.len() && 0 <= y < h[x].len() implies points_home(h, x, y) && covers_rect(h, x, y) by {
        assert(h[x].len() == g[x].len());
        if in_rect(pos, c.size, x, y) {
            assert(h[pos.x as int][pos.y as int] == button_cell(pos, c, pos.x as int, pos.y as int));
            if x == pos.x && y == pos.y {
                assert forall|i: int| x <= i < x + c.size.x implies y + c.size.y <= (#[trigger] h[i]).len() by {
                    assert(h[i].len() == g[i].len());
                }
                assert forall|i: int, j: int| in_rect(Pos { x: x as u16, y: y as u16 }, c.size, i, j) && !(i == x && j == y)
                    implies (#[trigger] h[i][j]).cell_type == CellTypeV::Pointer(Pos { x: x as u16, y: y as u16 }) by {
                    assert(h[i].len() == g[i].len());
                }
            }
        } else {
            assert(h[x][y] == g[x][y]);
            assert(points_home(g, x, y) && covers_rect(g, x, y));
            if let CellTypeV::Pointer(p) = g[x][y].cell_type {
                assert(g[p.x as int][p.y as int].cell_type is Manager);
                assert(!in_rect(pos, c.size, p.x as int, p.y as int));
                assert(h[p.x as int].len() == g[p.x as int].len());
                assert(h[p.x as int][p.y as int] == g[p.x as int][p.y as int]);
            }
            if let CellTypeV::Manager(c0) = g[x][y].cell_type {
                assert forall|i: int| x <= i < x + c0.size.x implies y + c0.size.y <= (#[trigger] h[i]).len() by {
                    assert(y + c0.size.y <= g[i].len());
                }
                assert forall|i: int, j: int| in_rect(Pos { x: x as u16, y: y as u16 }, c0.size, i, j) && !(i == x && j == y)
                    implies (#[trigger] h[i][j]).cell_type == CellTypeV::Pointer(Pos { x: x as u16, y: y as u16 }) by {
                    assert((x as u16) as int == x && (y as u16) as int == y);
                    assert(y + c0.size.y <= g[i].len());
                    assert(g[i][j].cell_type == CellTypeV::Pointer(Pos { x: x as u16, y: y as u16 }));
                    assert(!in_rect(pos, c.size, i, j));
                    assert(h[i][j] == g[i][j]);
                }
            }
        }
    }
}

} // verus!
