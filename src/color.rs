use vstd::prelude::*;
use crate::catalog::Element;
use crate::gradient::{Gradient, lerp_channel, lemma_segment_unique};

verus! {

/// A terminal color.
#[derive(Clone, Copy, Debug, PartialEq, Eq, Structural)]
pub enum Color {
    /// The terminal's own default.
    Reset,
    Black,
    Red,
    Green,
    Yellow,
    Blue,
    Magenta,
    White,
    DarkGrey,
    Rgb { r: u8, g: u8, b: u8 },
}

/// How elements are colored.
#[derive(Clone, Copy, Debug, PartialEq, Eq, Structural)]
pub enum ColoringMode {
    /// Elements are not colored.
    Uncolored,
    /// Elements are colored by their category.
    TypeBased,
    /// Elements are colored by their electronegativity.
    ElectronegativityBased,
}

/// The category tags that have a color of their own.
#[derive(Clone, Copy, Debug, PartialEq, Eq, Structural)]
pub enum Category {
    Nonmetal,
    NobleGas,
    TransitionMetal,
    Metal,
    Metalloid,
    Halogen,
    AlkaliMetal,
    AlkalineEarthMetal,
    /// Any tag not listed above.
    Other,
}

/// The category that a tag names.
pub open spec fn spec_category(tag: Seq<char>) -> Category {
    if tag == "Nonmetal"@ {
        Category::Nonmetal
    } else if tag == "Noble Gas"@ {
        Category::NobleGas
    } else if tag == "Transition Metal"@ {
        Category::TransitionMetal
    } else if tag == "Metal"@ {
        Category::Metal
    } else if tag == "Metalloid"@ {
        Category::Metalloid
    } else if tag == "Halogen"@ {
        Category::Halogen
    } else if tag == "Alkali Metal"@ {
        Category::AlkaliMetal
    } else if tag == "Alkaline Earth Metal"@ {
        Category::AlkalineEarthMetal
    } else {
        Category::Other
    }
}

/// The `(foreground, background)` pair of a category.
pub open spec fn spec_category_colors(c: Category) -> (Color, Color) {
    match c {
        Category::Nonmetal => (Color::Black, Color::Green),
        Category::NobleGas => (Color::Black, Color::Magenta),
        Category::TransitionMetal => (Color::Black, Color::Red),
        Category::Metal => (Color::Black, Color::Blue),
        Category::Metalloid => (Color::Black, Color::Rgb { r: 141, g: 234, b: 216 }),
        Category::Halogen => (Color::Black, Color::White),
        Category::AlkaliMetal => (Color::Black, Color::Rgb { r: 228, g: 145, b: 95 }),
        Category::AlkalineEarthMetal => (Color::Black, Color::Yellow),
        Category::Other => (Color::Reset, Color::Reset),
    }
}

/// Whether two texts hold the same characters.
fn same_text(a: &str, b: &str) -> (r: bool)
    ensures
        r == (a@ == b@),
{
    String::from_str(a) == String::from_str(b)
}

impl Category {
    /// The category that a catalog tag names; `Other` for an unknown tag.
    pub fn from_tag(tag: &str) -> (r: Category)
        ensures
            r == spec_category(tag@),
    {
        proof {
            reveal_strlit("Nonmetal");
            reveal_strlit("Noble Gas");
            reveal_strlit("Transition Metal");
            reveal_strlit("Metal");
            reveal_strlit("Metalloid");
            reveal_strlit("Halogen");
            reveal_strlit("Alkali Metal");
            reveal_strlit("Alkaline Earth Metal");
        }
        if same_text(tag, "Nonmetal") {
            Category::Nonmetal
        } else if same_text(tag, "Noble Gas") {
            Category::NobleGas
        } else if same_text(tag, "Transition Metal") {
            Category::TransitionMetal
        } else if same_text(tag, "Metal") {
            Category::Metal
        } else if same_text(tag, "Metalloid") {
            Category::Metalloid
        } else if same_text(tag, "Halogen") {
            Category::Halogen
        } else if same_text(tag, "Alkali Metal") {
            Category::AlkaliMetal
        } else if same_text(tag, "Alkaline Earth Metal") {
            Category::AlkalineEarthMetal
        } else {
            Category::Other
        }
    }

    /// The `(foreground, background)` pair that this category is drawn with.
    pub fn colors(self) -> (r: (Color, Color))
        ensures
            r == spec_category_colors(self),
    {
        match self {
            Category::Nonmetal => (Color::Black, Color::Green),
            Category::NobleGas => (Color::Black, Color::Magenta),
            Category::TransitionMetal => (Color::Black, Color::Red),
            Category::Metal => (Color::Black, Color::Blue),
            Category::Metalloid => (Color::Black, Color::Rgb { r: 141, g: 234, b: 216 }),
            Category::Halogen => (Color::Black, Color::White),
            Category::AlkaliMetal => (Color::Black, Color::Rgb { r: 228, g: 145, b: 95 }),
            Category::AlkalineEarthMetal => (Color::Black, Color::Yellow),
            Category::Other => (Color::Reset, Color::Reset),
        }
    }
}

/// Position, in hundredths, of stop `i` of the electronegativity ramp.
pub open spec fn en_stop_pos(i: int) -> int {
    seq![70int, 190, 220, 400][i]
}

/// Channel `c` of the color of stop `i` of the electronegativity ramp.
pub open spec fn en_stop_color(i: int, c: int) -> u8 {
    seq![
        seq![214u8, 251, 221],
        seq![5u8, 246, 41],
        seq![255u8, 232, 77],
        seq![255u8, 6, 0],
    ][i][c]
}

/// Channel `c` of the electronegativity ramp at `v` hundredths.
pub open spec fn en_channel(v: int, c: int) -> int {
    if v < en_stop_pos(0) {
        en_stop_color(0, c) as int
    } else if v >= en_stop_pos(3) {
        en_stop_color(3, c) as int
    } else {
        let i = if v < en_stop_pos(1) {
            0int
        } else if v < en_stop_pos(2) {
            1int
        } else {
            2int
        };
        lerp_channel(
            en_stop_color(i, c),
            en_stop_color(i + 1, c),
            v - en_stop_pos(i),
            en_stop_pos(i + 1) - en_stop_pos(i),
        )
    }
}

/// The `(foreground, background)` pair of an element under a coloring mode.
pub open spec fn spec_color_for(e: &Element, mode: ColoringMode) -> (Color, Color) {
    match mode {
        ColoringMode::Uncolored => (Color::Reset, Color::Reset),
        ColoringMode::TypeBased => spec_category_colors(spec_category(e.category@)),
        ColoringMode::ElectronegativityBased => match e.electronegativity {
            Option::None => (Color::Reset, Color::Reset),
            Option::Some(v) => (
                Color::Black,
                Color::Rgb {
                    r: en_channel(v as int, 0) as u8,
                    g: en_channel(v as int, 1) as u8,
                    b: en_channel(v as int, 2) as u8,
                },
            ),
        },
    }
}

/// The color of `v` hundredths of electronegativity.
fn electronegativity_color(v: u32) -> (r: Color)
    ensures
        r == (Color::Rgb {
            r: en_channel(v as int, 0) as u8,
            g: en_channel(v as int, 1) as u8,
            b: en_channel(v as int, 2) as u8,
        }),
{
    let steps: Vec<(i64, [u8; 3])> = vec![
        (70, [214, 251, 221]),
        (190, [5, 246, 41]),
        (220, [255, 232, 77]),
        (400, [255, 6, 0]),
    ];
    let gradient = Gradient::new(steps, false);
    match gradient {
        Ok(g) => {
            let rgb = g.get_at(v as i64);
            proof {
                let s = g.stops();
                assert(s[0].1@ =~= seq![214u8, 251, 221]);
                assert(s[1].1@ =~= seq![5u8, 246, 41]);
                assert(s[2].1@ =~= seq![255u8, 232, 77]);
                assert(s[3].1@ =~= seq![255u8, 6, 0]);
                let q = v as int;
                if 70 <= q < 400 {
                    let i: int = if q < 190 {
                        0
                    } else if q < 220 {
                        1
                    } else {
                        2
                    };
                    assert(g.in_segment(i, q));
                    let j = choose|j: int| g.in_segment(j, q);
                    lemma_segment_unique(g, i, j, q);
                }
                assert forall|c: int| 0 <= c < 3 implies rgb@[c] as int == en_channel(q, c) by {
                    assert(rgb@[c] as int == g.channel_at(q, c));
                }
            }
            Color::Rgb { r: rgb[0], g: rgb[1], b: rgb[2] }
        },
        Err(_) => Color::Reset,
    }
}

/// The `(foreground, background)` pair that `element` is drawn with under
/// `mode`.
pub fn color_for(element: &Element, mode: ColoringMode) -> (r: (Color, Color))
    ensures
        r == spec_color_for(element, mode),
{
    match mode {
        ColoringMode::Uncolored => (Color::Reset, Color::Reset),
        ColoringMode::TypeBased => Category::from_tag(element.category.as_str()).colors(),
        ColoringMode::ElectronegativityBased => match element.electronegativity {
            Option::None => (Color::Reset, Color::Reset),
            Option::Some(v) => (Color::Black, electronegativity_color(v)),
        },
    }
}

/// Under the category coloring, an element tagged `Noble Gas` is drawn in
/// black on magenta, whatever its other fields.
pub proof fn lemma_noble_gas(e: &Element)
    requires
        e.category@ == "Noble Gas"@,
    ensures
        spec_color_for(e, ColoringMode::TypeBased) == (Color::Black, Color::Magenta),
{
    reveal_strlit("Nonmetal");
    reveal_strlit("Noble Gas");
    assert(e.category@ != "Nonmetal"@) by {
        assert(e.category@.len() != "Nonmetal"@.len());
    }
}

} // verus!
