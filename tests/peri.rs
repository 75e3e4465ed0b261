use peri::catalog::{detached_cell, parse_elements, parse_record, CatalogError, Element};
use peri::color::{color_for, Category, Color, ColoringMode};
use peri::coords::cell_to_screen;
use peri::selection::{find_folded_symbol, Action, Command, Peri};
use peri::text::{is_decimal_text, parse_digits, parse_hundredths, split_text};

const SYMBOLS: [&str; 118] = [
    "H", "He", "Li", "Be", "B", "C", "N", "O", "F", "Ne", "Na", "Mg", "Al", "Si", "P", "S", "Cl",
    "Ar", "K", "Ca", "Sc", "Ti", "V", "Cr", "Mn", "Fe", "Co", "Ni", "Cu", "Zn", "Ga", "Ge", "As",
    "Se", "Br", "Kr", "Rb", "Sr", "Y", "Zr", "Nb", "Mo", "Tc", "Ru", "Rh", "Pd", "Ag", "Cd", "In",
    "Sn", "Sb", "Te", "I", "Xe", "Cs", "Ba", "La", "Ce", "Pr", "Nd", "Pm", "Sm", "Eu", "Gd", "Tb",
    "Dy", "Ho", "Er", "Tm", "Yb", "Lu", "Hf", "Ta", "W", "Re", "Os", "Ir", "Pt", "Au", "Hg", "Tl",
    "Pb", "Bi", "Po", "At", "Rn", "Fr", "Ra", "Ac", "Th", "Pa", "U", "Np", "Pu", "Am", "Cm", "Bk",
    "Cf", "Es", "Fm", "Md", "No", "Lr", "Rf", "Db", "Sg", "Bh", "Hs", "Mt", "Ds", "Rg", "Cn", "Nh",
    "Fl", "Mc", "Lv", "Ts", "Og",
];

/// Period and group columns of the catalog for an atomic number; the
/// detached blocks leave them empty.
fn period_group(n: u32) -> (String, String) {
    let (period, group) = match n {
        1 => (1, 1),
        2 => (1, 18),
        3..=10 | 11..=18 => {
            let (p, first) = if n <= 10 { (2, 3) } else { (3, 11) };
            let k = n - first;
            (p, if k < 2 { k + 1 } else { k + 11 })
        }
        19..=36 => (4, n - 18),
        37..=54 => (5, n - 36),
        55 | 56 => (6, n - 54),
        57..=71 | 89..=103 => return (String::new(), String::new()),
        72..=86 => (6, n - 68),
        87 | 88 => (7, n - 86),
        _ => (7, n - 100),
    };
    (period.to_string(), group.to_string())
}

fn category(n: u32) -> &'static str {
    match n {
        2 | 10 | 18 | 36 | 54 | 86 => "Noble Gas",
        26 => "Transition Metal",
        1 | 6 | 7 | 8 => "Nonmetal",
        9 | 17 => "Halogen",
        3 | 11 => "Alkali Metal",
        _ => "Metal",
    }
}

fn electronegativity(n: u32) -> &'static str {
    match n {
        1 => "2.2",
        9 => "3.98",
        26 => "1.83",
        55 => "0.79",
        _ => "",
    }
}

fn catalog_text() -> String {
    let mut lines = Vec::new();
    for (i, sym) in SYMBOLS.iter().enumerate() {
        let n = i as u32 + 1;
        let (period, group) = period_group(n);
        let metal = if category(n) == "Metal" { "yes" } else { "" };
        lines.push(format!(
            "{n},Name{n},{sym},{n}.5,a,b,c,{period},{group},d,e,f,{metal},g,h,{},i,{}",
            category(n),
            electronegativity(n)
        ));
    }
    lines.join("\n") + "\n"
}

fn catalog() -> Vec<Element> {
    parse_elements(&catalog_text()).unwrap()
}

fn peri() -> Peri {
    Peri::new(catalog()).unwrap()
}

fn select(p: &mut Peri, index: usize) {
    p.apply(Command::Escape);
    for _ in 0..=index {
        p.apply(Command::MoveRight);
    }
    assert_eq!(p.selection_index(), Some(index));
}

#[test]
fn catalog_parses_in_order() {
    let els = catalog();
    assert_eq!(els.len(), 118);
    for (i, e) in els.iter().enumerate() {
        assert_eq!(e.number as usize, i + 1);
        assert_eq!(e.symbol, SYMBOLS[i]);
    }
    let fe = &els[25];
    assert_eq!((fe.group, fe.period), (8, 4));
    assert_eq!(fe.electronegativity, Some(183));
    assert_eq!(fe.category, "Transition Metal");
    assert_eq!(fe.name, "Name26");
    assert_eq!(fe.mass, "26.5");
    assert!(!fe.metal);
    assert!(els[3].metal);
}

#[test]
fn detached_blocks_get_their_own_rows() {
    let els = catalog();
    assert_eq!((els[56].group, els[56].period), (4, 8));
    assert_eq!((els[70].group, els[70].period), (18, 8));
    assert_eq!((els[88].group, els[88].period), (4, 9));
    assert_eq!((els[102].group, els[102].period), (18, 9));
    assert_eq!(detached_cell(57), Some((4, 8)));
    assert_eq!(detached_cell(103), Some((18, 9)));
    assert_eq!(detached_cell(56), None);
    assert_eq!(detached_cell(72), None);
}

#[test]
fn record_fields_are_read() {
    let e = parse_record("8,Oxygen,O,15.999,x,x,x,2,16,x,x,x,no,x,x,Nonmetal,x,3.44").unwrap();
    assert_eq!(e.number, 8);
    assert_eq!(e.name, "Oxygen");
    assert_eq!(e.symbol, "O");
    assert_eq!(e.mass, "15.999");
    assert_eq!((e.group, e.period), (16, 2));
    assert!(!e.metal);
    assert_eq!(e.category, "Nonmetal");
    assert_eq!(e.electronegativity, Some(344));
}

#[test]
fn bad_records_are_refused() {
    assert!(parse_record("8,Oxygen,O").is_none());
    assert!(parse_record("x8,Oxygen,O,15.999,x,x,x,2,16,x,x,x,no,x,x,Nonmetal,x,3.44").is_none());
    assert!(parse_record("300,Oxygen,O,15.999,x,x,x,2,16,x,x,x,no,x,x,Nonmetal,x,3.44").is_none());
    assert!(parse_record("8,Oxygen,O,15.999,x,x,x,,16,x,x,x,no,x,x,Nonmetal,x,3.44").is_none());
    // a mass that is not a number
    assert!(parse_record("8,Oxygen,O,heavy,x,x,x,2,16,x,x,x,no,x,x,Nonmetal,x,3.44").is_none());
    assert!(parse_record("8,Oxygen,O,,x,x,x,2,16,x,x,x,no,x,x,Nonmetal,x,3.44").is_none());
}

#[test]
fn records_beyond_ascii_are_read() {
    let e = parse_record("8,Öxygen,O,15.999,x,x,x,2,16,x,x,x,no,x,x,Nonmetal,x,3.44").unwrap();
    assert_eq!(e.name, "Öxygen");
    assert_eq!(e.electronegativity, Some(344));
}

#[test]
fn catalog_errors() {
    assert_eq!(parse_elements("1,H\n2,He").unwrap_err(), CatalogError::MissingRows);
    assert_eq!(parse_elements("").unwrap_err(), CatalogError::MissingRows);
    let text = catalog_text().replacen(",Halogen,i,3.98", "", 1);
    assert_eq!(parse_elements(&text).unwrap_err(), CatalogError::BadRow { index: 8 });
    assert_eq!(Peri::new(Vec::new()).err(), Some(CatalogError::WrongLength));
    let mut els = catalog();
    els.swap(3, 5);
    assert_eq!(Peri::new(els).err(), Some(CatalogError::OutOfOrder { index: 3 }));
}

#[test]
fn splitting_and_numbers() {
    assert_eq!(split_text("a,,b,", ','), vec!["a", "", "b", ""]);
    assert_eq!(split_text("", ','), vec![""]);
    assert_eq!(split_text("é,ü", ','), vec!["é", "ü"]);
    assert_eq!(split_text(",", ','), vec!["", ""]);
    assert_eq!(parse_digits("255", 255), Some(255));
    assert_eq!(parse_digits("256", 255), None);
    assert_eq!(parse_digits("", 255), None);
    assert_eq!(parse_digits("+1", 255), None);
    assert_eq!(parse_hundredths("2.2"), Some(220));
    assert_eq!(parse_hundredths("0.79"), Some(79));
    assert_eq!(parse_hundredths("3"), Some(300));
    assert_eq!(parse_hundredths(""), None);
    assert_eq!(parse_hundredths("1.234"), Some(123));
    assert_eq!(parse_hundredths("1.999"), Some(199));
    assert_eq!(parse_hundredths(".5"), Some(50));
    assert_eq!(parse_hundredths("1."), Some(100));
    assert_eq!(parse_hundredths("."), None);
    assert_eq!(parse_hundredths("1.2.3"), None);
    assert_eq!(parse_hundredths("-1.2"), None);
    assert_eq!(parse_hundredths("42949671.99"), Some(4_294_967_199));
    assert_eq!(parse_hundredths("42949672"), None);
    assert!(is_decimal_text("15.999"));
    assert!(is_decimal_text("7"));
    assert!(is_decimal_text(".5"));
    assert!(!is_decimal_text(""));
    assert!(!is_decimal_text("."));
    assert!(!is_decimal_text("1e5"));
}

#[test]
fn every_move_from_unselected_selects_the_first() {
    for cmd in [Command::MoveRight, Command::MoveLeft, Command::MoveDown, Command::MoveUp] {
        let mut p = peri();
        assert_eq!(p.apply(cmd), Action::MoveHighlight { previous: None });
        assert_eq!(p.selection_index(), Some(0));
    }
}

#[test]
fn move_right_wraps_at_the_end() {
    let mut p = peri();
    select(&mut p, 117);
    assert_eq!(p.apply(Command::MoveRight), Action::MoveHighlight { previous: Some(117) });
    assert_eq!(p.selection_index(), Some(0));
}

#[test]
fn move_left_stops_at_the_start() {
    let mut p = peri();
    select(&mut p, 0);
    p.apply(Command::MoveLeft);
    assert_eq!(p.selection_index(), Some(0));
    select(&mut p, 5);
    p.apply(Command::MoveLeft);
    assert_eq!(p.selection_index(), Some(4));
}

#[test]
fn vertical_moves_follow_the_group() {
    let mut p = peri();
    select(&mut p, 0);
    // hydrogen has nothing above it
    assert_eq!(p.apply(Command::MoveUp), Action::Nothing);
    assert_eq!(p.selection_index(), Some(0));
    // helium sits above neon
    select(&mut p, 1);
    assert_eq!(p.apply(Command::MoveDown), Action::MoveHighlight { previous: Some(1) });
    assert_eq!(p.selection_index(), Some(9));
    assert_eq!(p.catalog()[9].number, 10);
    assert_eq!(p.apply(Command::MoveUp), Action::MoveHighlight { previous: Some(9) });
    assert_eq!(p.selection_index(), Some(1));
}

#[test]
fn vertical_move_without_a_neighbour_is_ignored() {
    let mut p = peri();
    // radium, group 2 of the last period: nothing below in its group
    select(&mut p, 87);
    assert_eq!(p.apply(Command::MoveDown), Action::Nothing);
    assert_eq!(p.selection_index(), Some(87));
    // boron, group 13: nothing above it
    select(&mut p, 4);
    assert_eq!(p.apply(Command::MoveUp), Action::Nothing);
    assert_eq!(p.selection_index(), Some(4));
}

#[test]
fn search_ignores_case() {
    let mut p = peri();
    assert_eq!(p.apply(Command::SearchBySymbol("Fe".to_string())), Action::RedrawAll);
    assert_eq!(p.selection_index(), Some(25));
    p.apply(Command::Escape);
    p.apply(Command::SearchBySymbol("fe".to_string()));
    assert_eq!(p.selection_index(), Some(25));
    p.apply(Command::Escape);
    p.apply(Command::SearchBySymbol("FE".to_string()));
    assert_eq!(p.selection_index(), Some(25));
    assert_eq!(p.find_element_by_symbol("og"), Some(117));
}

#[test]
fn search_without_a_match_keeps_the_selection() {
    let mut p = peri();
    select(&mut p, 7);
    p.apply(Command::SearchBySymbol("Xx".to_string()));
    assert_eq!(p.selection_index(), Some(7));
    assert_eq!(p.find_element_by_symbol("f e"), None);
}

#[test]
fn folded_symbol_lookup_takes_the_first_match() {
    let folded = vec!["h".to_string(), "he".to_string(), "he".to_string()];
    assert_eq!(find_folded_symbol(&folded, &"he".to_string()), Some(1));
    assert_eq!(find_folded_symbol(&folded, &"He".to_string()), None);
}

#[test]
fn pointer_selects_the_cell_under_it() {
    let mut p = peri();
    let (x, y) = cell_to_screen(8, 4, 6);
    assert_eq!(
        p.apply(Command::PointerDown { x, y, scale: 6 }),
        Action::MoveHighlight { previous: None }
    );
    assert_eq!(p.selection_index(), Some(25));
    // the empty corner above boron holds no element
    let (x, y) = cell_to_screen(13, 1, 6);
    assert_eq!(p.apply(Command::PointerDown { x, y, scale: 6 }), Action::Nothing);
    assert_eq!(p.selection_index(), Some(25));
    assert_eq!(p.apply(Command::PointerDown { x: 0, y: 0, scale: 1 }), Action::Nothing);
    assert_eq!(p.find_element_by_pos(4, 9), Some(88));
    assert_eq!(p.find_element_by_pos(3, 8), None);
}

#[test]
fn escape_mode_and_quit() {
    let mut p = peri();
    select(&mut p, 3);
    assert_eq!(p.apply(Command::Escape), Action::RedrawAll);
    assert_eq!(p.selection_index(), None);
    assert_eq!(
        p.apply(Command::SetColoringMode(ColoringMode::TypeBased)),
        Action::RedrawAll
    );
    assert_eq!(p.coloring_mode(), ColoringMode::TypeBased);
    assert_eq!(p.apply(Command::Quit), Action::Quit);
    assert_eq!(p.catalog().len(), 118);
}

#[test]
fn noble_gas_is_black_on_magenta_whatever_came_before() {
    let mut p = peri();
    for mode in [
        ColoringMode::ElectronegativityBased,
        ColoringMode::Uncolored,
        ColoringMode::TypeBased,
    ] {
        p.apply(Command::SetColoringMode(mode));
    }
    p.apply(Command::SetColoringMode(ColoringMode::TypeBased));
    let neon = &p.catalog()[9];
    assert_eq!(p.get_color(neon), (Color::Black, Color::Magenta));
    assert_eq!(color_for(neon, ColoringMode::TypeBased), (Color::Black, Color::Magenta));
}

#[test]
fn category_palette() {
    assert_eq!(Category::from_tag("Nonmetal").colors(), (Color::Black, Color::Green));
    assert_eq!(Category::from_tag("Transition Metal").colors(), (Color::Black, Color::Red));
    assert_eq!(Category::from_tag("Metal").colors(), (Color::Black, Color::Blue));
    assert_eq!(
        Category::from_tag("Metalloid").colors(),
        (Color::Black, Color::Rgb { r: 141, g: 234, b: 216 })
    );
    assert_eq!(Category::from_tag("Halogen").colors(), (Color::Black, Color::White));
    assert_eq!(
        Category::from_tag("Alkali Metal").colors(),
        (Color::Black, Color::Rgb { r: 228, g: 145, b: 95 })
    );
    assert_eq!(
        Category::from_tag("Alkaline Earth Metal").colors(),
        (Color::Black, Color::Yellow)
    );
    assert_eq!(Category::from_tag("noble gas"), Category::Other);
    assert_eq!(Category::from_tag("Other").colors(), (Color::Reset, Color::Reset));
}

#[test]
fn uncolored_mode_uses_the_default() {
    let p = peri();
    assert_eq!(p.get_color(&p.catalog()[25]), (Color::Reset, Color::Reset));
}

#[test]
fn electronegativity_colors() {
    let els = catalog();
    let mode = ColoringMode::ElectronegativityBased;
    // no value: default colors
    assert_eq!(color_for(&els[1], mode), (Color::Reset, Color::Reset));
    // 0.79: a little past the first stop
    assert_eq!(
        color_for(&els[54], mode),
        (Color::Black, Color::Rgb { r: 198, g: 250, b: 207 })
    );
    // 2.2: exactly the third stop
    assert_eq!(
        color_for(&els[0], mode),
        (Color::Black, Color::Rgb { r: 255, g: 232, b: 77 })
    );
    // 3.98: close to the last stop
    assert_eq!(
        color_for(&els[8], mode),
        (Color::Black, Color::Rgb { r: 255, g: 8, b: 0 })
    );
}

#[test]
fn electronegativity_at_the_ends() {
    let mut e = catalog().swap_remove(0);
    let mode = ColoringMode::ElectronegativityBased;
    e.electronegativity = Some(50);
    assert_eq!(color_for(&e, mode), (Color::Black, Color::Rgb { r: 214, g: 251, b: 221 }));
    e.electronegativity = Some(400);
    assert_eq!(color_for(&e, mode), (Color::Black, Color::Rgb { r: 255, g: 6, b: 0 }));
    e.electronegativity = Some(205);
    assert_eq!(color_for(&e, mode), (Color::Black, Color::Rgb { r: 130, g: 239, b: 59 }));
}
