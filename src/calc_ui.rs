use vstd::prelude::*;
use vstd::string::StrSliceExecFns;
use crate::session::{degrees_command, enter_command, radians_command};
use crate::ui::{CellTypeV, ControllerV, Interface, Pos, all_released, blank_cell, buttons_wf, in_rect};

verus! {

/// Columns of the calculator keyboard.
pub const UI_WIDTH: u16 = 30;
/// Rows of the calculator keyboard.
pub const UI_HEIGHT: u16 = 5;

fn place_key(ui: &mut Interface, x: u16, y: u16, w: u16, name: &[u8], action: &[u8])
    requires
        old(ui).layout_wf(),
        old(ui).width() == UI_WIDTH,
        old(ui).height() == UI_HEIGHT,
        1 <= w,
        x + w <= UI_WIDTH,
        y < UI_HEIGHT,
        buttons_wf(old(ui).grid()),
        all_released(old(ui).grid()),
        forall|i: int| x <= i < x + w ==> (#[trigger] old(ui).grid()[i][y as int]).cell_type == CellTypeV::Blank,
    ensures
        final(ui).layout_wf(),
        final(ui).width() == UI_WIDTH,
        final(ui).height() == UI_HEIGHT,
        final(ui).cursor == old(ui).cursor,
        buttons_wf(final(ui).grid()),
        all_released(final(ui).grid()),
        forall|i: int, j: int| 0 <= i < UI_WIDTH && 0 <= j < UI_HEIGHT && !(x <= i < x + w && j == y)
            ==> #[trigger] final(ui).grid()[i][j] == old(ui).grid()[i][j],
        final(ui).grid()[x as int][y as int].cell_type
            == CellTypeV::Manager(ControllerV { size: Pos { x: w, y: 1 }, name: name@, action: action@ }),
        forall|i: int| x < i < x + w ==> (#[trigger] final(ui).grid()[i][y as int]).cell_type == CellTypeV::Pointer(Pos { x, y }),
{
    proof {
        assert forall|i: int, j: int| in_rect(Pos { x, y }, Pos { x: w, y: 1 }, i, j) implies
            (#[trigger] ui.grid()[i][j]).cell_type == CellTypeV::Blank by {
            assert(j == y);
        }
    }
    ui.add_manager((x, y), (w, 1), name, action);
}

fn button(ui: &mut Interface, x: u16, y: u16, w: u16, label: &str, action: &str)
    requires
        old(ui).layout_wf(),
        old(ui).width() == UI_WIDTH,
        old(ui).height() == UI_HEIGHT,
        1 <= w,
        x + w <= UI_WIDTH,
        y < UI_HEIGHT,
        buttons_wf(old(ui).grid()),
        all_released(old(ui).grid()),
        forall|i: int| x <= i < x + w ==> (#[trigger] old(ui).grid()[i][y as int]).cell_type == CellTypeV::Blank,
    ensures
        final(ui).layout_wf(),
        final(ui).width() == UI_WIDTH,
        final(ui).height() == UI_HEIGHT,
        final(ui).cursor == old(ui).cursor,
        buttons_wf(final(ui).grid()),
        all_released(final(ui).grid()),
        forall|i: int, j: int| 0 <= i < UI_WIDTH && 0 <= j < UI_HEIGHT && !(x <= i < x + w && j == y)
            ==> #[trigger] final(ui).grid()[i][j] == old(ui).grid()[i][j],
        final(ui).grid()[x as int][y as int].cell_type matches CellTypeV::Manager(c) && c.size == (Pos { x: w, y: 1 }),
        forall|i: int| x < i < x + w ==> (#[trigger] final(ui).grid()[i][y as int]).cell_type == CellTypeV::Pointer(Pos { x, y }),
{
    let name = label.as_bytes_vec();
    let command = action.as_bytes_vec();
    place_key(ui, x, y, w, name.as_slice(), command.as_slice());
}

/// The keyboard before keys are placed in columns `x0` to `x1`: consistent,
/// nothing pressed, and those columns blank.
pub open spec fn section_ready(ui: &Interface, x0: int, x1: int) -> bool {
    &&& ui.layout_wf()
    &&& ui.width() == UI_WIDTH
    &&& ui.height() == UI_HEIGHT
    &&& buttons_wf(ui.grid())
    &&& all_released(ui.grid())
    &&& forall|i: int, j: int| x0 <= i < x1 && 0 <= j < UI_HEIGHT ==> (#[trigger] ui.grid()[i][j]).cell_type == CellTypeV::Blank
}

/// `after` is `before` with keys placed in columns `x0` to `x1` alone, still
/// consistent and with nothing pressed.
pub open spec fn section_done(before: &Interface, after: &Interface, x0: int, x1: int) -> bool {
    &&& after.layout_wf()
    &&& after.width() == UI_WIDTH
    &&& after.height() == UI_HEIGHT
    &&& after.cursor == before.cursor
    &&& buttons_wf(after.grid())
    &&& all_released(after.grid())
    &&& forall|i: int, j: int| 0 <= i < UI_WIDTH && 0 <= j < UI_HEIGHT && !(x0 <= i < x1)
        ==> #[trigger] after.grid()[i][j] == before.grid()[i][j]
}

/// The digits, the point, the space and the enter key.
fn place_numpad(ui: &mut Interface)
    requires
        section_ready(&*old(ui), 0, 3),
    ensures
        section_done(&*old(ui), &*final(ui), 0, 3),
        final(ui).grid()[0][4].cell_type == CellTypeV::Manager(
            ControllerV { size: Pos { x: 3, y: 1 }, name: seq![61u8, 61u8, 62u8], action: enter_command() },
        ),
        final(ui).grid()[1][4].cell_type == CellTypeV::Pointer(Pos { x: 0, y: 4 }),
        final(ui).grid()[2][4].cell_type == CellTypeV::Pointer(Pos { x: 0, y: 4 }),
        final(ui).grid()[0][0].cell_type matches CellTypeV::Manager(c) && c.size == (Pos { x: 1, y: 1 }),
        final(ui).grid()[1][0].cell_type == CellTypeV::Manager(ControllerV { size: Pos { x: 1, y: 1 }, name: seq![50u8], action: seq![50u8] }),
{
    button(ui, 2, 3, 1, " ", " ");
    button(ui, 0, 3, 1, ".", ".");
    button(ui, 1, 3, 1, "0", "0");
    button(ui, 0, 0, 1, "1", "1");
    button(ui, 2, 0, 1, "3", "3");
    button(ui, 0, 1, 1, "4", "4");
    button(ui, 1, 1, 1, "5", "5");
    button(ui, 2, 1, 1, "6", "6");
    button(ui, 0, 2, 1, "7", "7");
    button(ui, 1, 2, 1, "8", "8");
    button(ui, 2, 2, 1, "9", "9");
    let two: Vec<u8> = vec![50u8];
    place_key(ui, 1, 0, 1, two.as_slice(), two.as_slice());
    let enter_name: Vec<u8> = vec![61u8, 61u8, 62u8];
    let enter: Vec<u8> = vec![99u8, 109u8, 100u8, 95u8, 101u8, 110u8, 116u8, 101u8, 114u8];
    place_key(ui, 0, 4, 3, enter_name.as_slice(), enter.as_slice());
    proof {
        assert(two@ =~= seq![50u8]);
        assert(enter_name@ =~= seq![61u8, 61u8, 62u8]);
        assert(enter@ =~= enter_command());
    }
}

/// The operators and brackets.
fn place_operators(ui: &mut Interface)
    requires
        section_ready(&*old(ui), 4, 6),
    ensures
        section_done(&*old(ui), &*final(ui), 4, 6),
{
    button(ui, 4, 0, 1, "+", "+");
    button(ui, 5, 0, 1, "=", "=");
    button(ui, 4, 1, 1, "-", "-");
    button(ui, 5, 1, 1, "(", "(");
    button(ui, 4, 2, 1, "*", "*");
    button(ui, 5, 2, 1, ")", ")");
    button(ui, 4, 3, 1, "/", "/");
    button(ui, 5, 3, 1, ",", ",");
    button(ui, 4, 4, 1, "%", "%");
    button(ui, 5, 4, 1, "^", "^");
}

/// The letters of the three left columns.
fn place_letters_left(ui: &mut Interface)
    requires
        section_ready(&*old(ui), 7, 10),
    ensures
        section_done(&*old(ui), &*final(ui), 7, 10),
{
    button(ui, 7, 0, 1, "a", "a");
    button(ui, 8, 0, 1, "b", "b");
    button(ui, 9, 0, 1, "c", "c");
    button(ui, 7, 1, 1, "f", "f");
    button(ui, 8, 1, 1, "g", "g");
    button(ui, 9, 1, 1, "h", "h");
    button(ui, 7, 2, 1, "k", "k");
    button(ui, 8, 2, 1, "l", "l");
    button(ui, 9, 2, 1, "m", "m");
    button(ui, 7, 3, 1, "p", "p");
    button(ui, 8, 3, 1, "q", "q");
    button(ui, 9, 3, 1, "r", "r");
    button(ui, 7, 4, 1, "u", "u");
    button(ui, 8, 4, 1, "v", "v");
    button(ui, 9, 4, 1, "w", "w");
}

/// The other letters, and the space, brackets and comma beside them.
fn place_letters_right(ui: &mut Interface)
    requires
        section_ready(&*old(ui), 10, 13),
    ensures
        section_done(&*old(ui), &*final(ui), 10, 13),
{
    button(ui, 10, 0, 1, "d", "d");
    button(ui, 11, 0, 1, "e", "e");
    button(ui, 10, 1, 1, "i", "i");
    button(ui, 11, 1, 1, "j", "j");
    button(ui, 10, 2, 1, "n", "n");
    button(ui, 11, 2, 1, "o", "o");
    button(ui, 10, 3, 1, "s", "s");
    button(ui, 11, 3, 1, "t", "t");
    button(ui, 10, 4, 1, "x", "x");
    button(ui, 11, 4, 1, "y", "y");
    button(ui, 12, 4, 1, "z", "z");
    button(ui, 12, 0, 1, " ", " ");
    button(ui, 12, 1, 1, "(", "(");
    button(ui, 12, 2, 1, ")", ")");
    button(ui, 12, 3, 1, ",", ",");
}

/// The built-in functions.
fn place_functions(ui: &mut Interface)
    requires
        section_ready(&*old(ui), 14, 23),
    ensures
        section_done(&*old(ui), &*final(ui), 14, 23),
        final(ui).grid()[14][0].cell_type matches CellTypeV::Manager(c) && c.size == (Pos { x: 4, y: 1 }),
        final(ui).grid()[17][0].cell_type == CellTypeV::Pointer(Pos { x: 14, y: 0 }),
{
    button(ui, 14, 0, 4, "sin", "sin(");
    button(ui, 14, 1, 4, "cos", "cos(");
    button(ui, 14, 2, 4, "tan", "tan(");
    button(ui, 19, 0, 4, "asin", "asin(");
    button(ui, 19, 1, 4, "acos", "acos(");
    button(ui, 19, 2, 4, "atan", "atan(");
    button(ui, 14, 3, 4, "sqrt", "sqrt(");
    button(ui, 14, 4, 4, "dbug", "sqr(x) = x * x");
    button(ui, 19, 3, 4, "log", "log(");
    button(ui, 19, 4, 4, "ln", "ln(");
}

/// The constants, the previous answer and the angle-unit keys.
fn place_constants(ui: &mut Interface)
    requires
        section_ready(&*old(ui), 24, 30),
    ensures
        section_done(&*old(ui), &*final(ui), 24, 30),
        final(ui).grid()[24][4].cell_type == CellTypeV::Manager(
            ControllerV { size: Pos { x: 3, y: 1 }, name: seq![68u8, 69u8, 71u8], action: degrees_command() },
        ),
        final(ui).grid()[27][4].cell_type == CellTypeV::Manager(
            ControllerV { size: Pos { x: 3, y: 1 }, name: seq![82u8, 65u8, 68u8], action: radians_command() },
        ),
{
    button(ui, 24, 1, 3, "pi", "pi");
    button(ui, 24, 2, 3, "e", "e");
    button(ui, 24, 0, 3, "tau", "tau");
    button(ui, 27, 0, 3, "ans", "ans");
    let rad_name: Vec<u8> = vec![82u8, 65u8, 68u8];
    let rad: Vec<u8> = vec![99u8, 109u8, 100u8, 95u8, 115u8, 101u8, 116u8, 95u8, 97u8, 110u8, 103u8, 108u8, 101u8, 95u8,
        114u8, 97u8, 100u8, 105u8, 97u8, 110u8, 115u8];
    place_key(ui, 27, 4, 3, rad_name.as_slice(), rad.as_slice());
    let deg_name: Vec<u8> = vec![68u8, 69u8, 71u8];
    let deg: Vec<u8> = vec![99u8, 109u8, 100u8, 95u8, 115u8, 101u8, 116u8, 95u8, 97u8, 110u8, 103u8, 108u8, 101u8, 95u8,
        100u8, 101u8, 103u8, 114u8, 101u8, 101u8, 115u8];
    place_key(ui, 24, 4, 3, deg_name.as_slice(), deg.as_slice());
    proof {
        assert(rad_name@ =~= seq![82u8, 65u8, 68u8]);
        assert(rad@ =~= radians_command());
        assert(deg_name@ =~= seq![68u8, 69u8, 71u8]);
        assert(deg@ =~= degrees_command());
    }
}

/// The calculator keyboard: digits, operators, letters, functions, constants
/// and the angle-unit switches, with the cursor on the first key. Every key
/// is released, every part of a key points to it, and no two keys overlap.
pub fn make_ui() -> (r: Interface)
    ensures
        r.layout_wf(),
        r.width() == UI_WIDTH,
        r.height() == UI_HEIGHT,
        r.cursor == (Pos { x: 0, y: 0 }),
        buttons_wf(r.grid()),
        all_released(r.grid()),
        r.grid()[0][4].cell_type == CellTypeV::Manager(
            ControllerV { size: Pos { x: 3, y: 1 }, name: seq![61u8, 61u8, 62u8], action: enter_command() },
        ),
        r.grid()[1][4].cell_type == CellTypeV::Pointer(Pos { x: 0, y: 4 }),
        r.grid()[2][4].cell_type == CellTypeV::Pointer(Pos { x: 0, y: 4 }),
        r.grid()[0][0].cell_type matches CellTypeV::Manager(c) && c.size == (Pos { x: 1, y: 1 }),
        r.grid()[1][0].cell_type == CellTypeV::Manager(ControllerV { size: Pos { x: 1, y: 1 }, name: seq![50u8], action: seq![50u8] }),
        r.grid()[14][0].cell_type matches CellTypeV::Manager(c) && c.size == (Pos { x: 4, y: 1 }),
        r.grid()[17][0].cell_type == CellTypeV::Pointer(Pos { x: 14, y: 0 }),
        r.grid()[24][4].cell_type == CellTypeV::Manager(
            ControllerV { size: Pos { x: 3, y: 1 }, name: seq![68u8, 69u8, 71u8], action: degrees_command() },
        ),
        r.grid()[27][4].cell_type == CellTypeV::Manager(
            ControllerV { size: Pos { x: 3, y: 1 }, name: seq![82u8, 65u8, 68u8], action: radians_command() },
        ),
        r.grid()[3][0] == blank_cell(),
{
    let mut ui = Interface::blank(UI_WIDTH, UI_HEIGHT);
    proof {
        assert forall|x: int, y: int| 0 <= x < ui.width() && 0 <= y < ui.height() implies
            ((#[trigger] ui.grid()[x][y]).cell_type matches CellTypeV::Pointer(m) ==> m.x < ui.width() && m.y < ui.height()) by {
            assert(ui.grid()[x][y] == blank_cell());
        }
        assert forall|x: int, y: int| 0 <= x < ui.grid().len() && 0 <= y < ui.grid()[x].len() implies
            !(#[trigger] ui.grid()[x][y]).is_pressed by {
            assert(ui.cells@[x]@.len() == ui.height());
            assert(ui.grid()[x][y] == blank_cell());
        }
        assert forall|x: int, y: int| 0 <= x < ui.grid().len() && 0 <= y < ui.grid()[x].len() implies
            crate::ui::points_home(ui.grid(), x, y) && crate::ui::covers_rect(ui.grid(), x, y) by {
            assert(ui.cells@[x]@.len() == ui.height());
            assert(ui.grid()[x][y] == blank_cell());
        }
    }
    let ghost g0 = ui.grid();
    place_numpad(&mut ui);
    let ghost g1 = ui.grid();
    place_operators(&mut ui);
    let ghost g2 = ui.grid();
    place_letters_left(&mut ui);
    let ghost g3 = ui.grid();
    place_letters_right(&mut ui);
    let ghost g4 = ui.grid();
    place_functions(&mut ui);
    let ghost g5 = ui.grid();
    place_constants(&mut ui);
    proof {
        assert(g5[0][4] == g1[0][4] && g5[1][4] == g1[1][4] && g5[2][4] == g1[2][4]);
        assert(g5[0][0] == g1[0][0] && g5[1][0] == g1[1][0]);
        assert(g5[3][0] == g0[3][0]);
    }
    ui
}

} // verus!
