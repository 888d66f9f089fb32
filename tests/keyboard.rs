use calc_engine::calc_ui::make_ui;
use calc_engine::ui::{get_tile_index, Buttons, Cell, CellType, Controller, Interface, Pos};

fn idle() -> Buttons {
    Buttons {
        a_released: true,
        a_just_pressed: false,
        a_just_released: false,
        up: false,
        down: false,
        left: false,
        right: false,
        b: false,
        start: false,
        select: false,
    }
}

fn manager_action(ui: &Interface, x: usize, y: usize) -> Vec<u8> {
    match &ui.cells[x][y].cell_type {
        CellType::Manager(c) => c.action.clone(),
        _ => panic!("no button at {} {}", x, y),
    }
}

#[test]
fn layout_dimensions() {
    let ui = make_ui();
    assert_eq!(ui.cells.len(), 30);
    assert!(ui.cells.iter().all(|c| c.len() == 5));
    assert_eq!(ui.cursor, Pos { x: 0, y: 0 });
}

#[test]
fn layout_buttons() {
    let ui = make_ui();
    assert_eq!(manager_action(&ui, 0, 0), b"1".to_vec());
    assert_eq!(manager_action(&ui, 0, 4), b"cmd_enter".to_vec());
    assert!(matches!(ui.cells[1][4].cell_type, CellType::Pointer(Pos { x: 0, y: 4 })));
    assert!(matches!(ui.cells[2][4].cell_type, CellType::Pointer(Pos { x: 0, y: 4 })));
    assert_eq!(manager_action(&ui, 14, 0), b"sin(".to_vec());
    assert_eq!(manager_action(&ui, 27, 4), b"cmd_set_angle_radians".to_vec());
    assert_eq!(manager_action(&ui, 24, 4), b"cmd_set_angle_degrees".to_vec());
    assert!(matches!(ui.cells[3][0].cell_type, CellType::Blank));
    assert_eq!(ui.cells[3][0].tile_index, (99, 99));
}

#[test]
fn tiles_of_buttons() {
    assert_eq!(get_tile_index(Pos { x: 1, y: 1 }, Pos { x: 0, y: 0 }), (129, 132));
    assert_eq!(get_tile_index(Pos { x: 3, y: 1 }, Pos { x: 0, y: 0 }), (118, 134));
    assert_eq!(get_tile_index(Pos { x: 3, y: 1 }, Pos { x: 1, y: 0 }), (150, 151));
    assert_eq!(get_tile_index(Pos { x: 3, y: 1 }, Pos { x: 2, y: 0 }), (119, 135));
    assert_eq!(get_tile_index(Pos { x: 3, y: 3 }, Pos { x: 1, y: 1 }), (99, 99));
    assert_eq!(get_tile_index(Pos { x: 2, y: 2 }, Pos { x: 1, y: 1 }), (146, 149));
}

#[test]
fn add_button_fills_its_cells() {
    let mut ui = Interface::blank(6, 3);
    ui.add_manager((1, 1), (3, 2), b"go", b"cmd");
    assert!(matches!(&ui.cells[1][1].cell_type, CellType::Manager(c) if c.name == b"go".to_vec()));
    assert!(matches!(ui.cells[3][2].cell_type, CellType::Pointer(Pos { x: 1, y: 1 })));
    assert!(matches!(ui.cells[0][0].cell_type, CellType::Blank));
    assert!(matches!(ui.cells[4][1].cell_type, CellType::Blank));
    assert_eq!(ui.cells[1][1].tile_index, (112, 115));
    let pointer = Cell { cell_type: CellType::Pointer(Pos { x: 1, y: 1 }), tile_index: (0, 0), is_pressed: true };
    ui.add_new_button(Pos { x: 5, y: 0 }, &pointer);
    assert_eq!(ui.cells[5][0].tile_index, (150, 151));
    assert!(!ui.cells[5][0].is_pressed);
    let controller = Controller { size: Pos { x: 1, y: 1 }, name: b"x".to_vec(), action: b"x".to_vec() };
    let button = Cell { cell_type: CellType::Manager(controller), tile_index: (0, 0), is_pressed: false };
    ui.add_new_button(Pos { x: 0, y: 0 }, &button);
    assert_eq!(ui.cells[0][0].tile_index, (129, 132));
}

#[test]
fn cursor_moves_and_wraps() {
    let mut ui = make_ui();
    let (code, action) = ui.handle_input(Buttons { right: true, ..idle() });
    assert_eq!((code, action), (1, Vec::new()));
    assert_eq!(ui.cursor, Pos { x: 1, y: 0 });
    ui.handle_input(Buttons { up: true, ..idle() });
    // the enter button spans three cells: the cursor lands on its first one
    assert_eq!(ui.cursor, Pos { x: 0, y: 4 });
}

#[test]
fn cursor_jumps_over_wide_buttons() {
    let mut ui = make_ui();
    ui.cursor = Pos { x: 0, y: 4 };
    ui.handle_input(Buttons { right: true, ..idle() });
    assert_eq!(ui.cursor, Pos { x: 3, y: 4 });
    ui.cursor = Pos { x: 29, y: 0 };
    ui.handle_input(Buttons { right: true, ..idle() });
    assert_eq!(ui.cursor, Pos { x: 0, y: 0 });
}

#[test]
fn pressing_sends_the_command() {
    let mut ui = make_ui();
    ui.cursor = Pos { x: 14, y: 0 };
    let (code, action) = ui.handle_input(Buttons { a_released: false, a_just_pressed: true, ..idle() });
    assert_eq!(code, 1);
    assert_eq!(action, b"sin(".to_vec());
    assert!(ui.cells[17][0].is_pressed);
    let (code, action) = ui.handle_input(Buttons { a_just_released: true, ..idle() });
    assert_eq!((code, action), (2, Vec::new()));
    assert!(!ui.cells[14][0].is_pressed);
    assert!(!ui.cells[17][0].is_pressed);
}

#[test]
fn special_buttons() {
    let mut ui = make_ui();
    assert_eq!(ui.handle_input(Buttons { start: true, ..idle() }), (2, b"cmd_enter".to_vec()));
    assert_eq!(ui.handle_input(Buttons { select: true, ..idle() }), (2, b"ans".to_vec()));
    assert_eq!(ui.handle_input(Buttons { b: true, ..idle() }), (3, Vec::new()));
    assert_eq!(ui.handle_input(idle()), (0, Vec::new()));
}

#[test]
fn layout_is_consistent() {
    let ui = make_ui();
    let mut keys = 0;
    for x in 0..30 {
        for y in 0..5 {
            let cell = &ui.cells[x][y];
            assert!(!cell.is_pressed);
            match &cell.cell_type {
                CellType::Manager(c) => {
                    keys += 1;
                    for i in 0..c.size.x as usize {
                        for j in 0..c.size.y as usize {
                            if i + j > 0 {
                                assert!(matches!(ui.cells[x + i][y + j].cell_type,
                                    CellType::Pointer(p) if p == Pos { x: x as u16, y: y as u16 }));
                            }
                        }
                    }
                }
                CellType::Pointer(p) => {
                    assert!(matches!(ui.cells[p.x as usize][p.y as usize].cell_type, CellType::Manager(_)));
                }
                CellType::Blank => {}
            }
        }
    }
    assert_eq!(keys, 69);
    assert!(matches!(&ui.cells[27][4].cell_type, CellType::Manager(c) if c.action == b"cmd_set_angle_radians".to_vec() && c.name == b"RAD".to_vec()));
    assert!(matches!(&ui.cells[1][0].cell_type, CellType::Manager(c) if c.name == b"2".to_vec()));
}
