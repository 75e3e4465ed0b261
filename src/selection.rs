use vstd::prelude::*;
use crate::catalog::{CatalogError, Element, CATALOG_SIZE};
use crate::color::{Color, ColoringMode, color_for, spec_color_for};
use crate::coords::{screen_to_cell, spec_screen_to_cell};

verus! {

/// What `str::to_lowercase` makes of a text.
pub uninterp spec fn lower_of(s: Seq<char>) -> Seq<char>;

/// Relies on `str::to_lowercase`: the result depends on the characters alone.
#[verifier::external_body]
fn lowercase(s: &str) -> (r: String)
    ensures
        r@ == lower_of(s@),
{
    s.to_lowercase()
}

/// An input to the selection state machine.
pub enum Command {
    /// Clear the selection.
    Escape,
    MoveRight,
    MoveLeft,
    MoveDown,
    MoveUp,
    /// Select the element with this symbol, ignoring case.
    SearchBySymbol(String),
    /// A pointer press at a terminal position, with the scale in use.
    PointerDown { x: u16, y: u16, scale: u16 },
    SetColoringMode(ColoringMode),
    /// Leave the event loop.
    Quit,
}

/// What the surrounding loop does after a command.
#[derive(Clone, Copy, Debug, PartialEq, Eq, Structural)]
pub enum Action {
    /// Nothing changed.
    Nothing,
    /// Redraw the whole screen.
    RedrawAll,
    /// Redraw the previously selected element, if any, without highlight,
    /// then highlight the selection.
    MoveHighlight { previous: Option<usize> },
    /// Leave the loop.
    Quit,
}

/// The element sits in the given grid cell.
pub open spec fn at_cell(e: Element, group: int, period: int) -> bool {
    e.group == group && e.period == period
}

/// `i` is the first index of an element in the given cell.
pub open spec fn is_first_at(els: Seq<Element>, group: int, period: int, i: int) -> bool {
    &&& 0 <= i < els.len()
    &&& at_cell(els[i], group, period)
    &&& forall|j: int| 0 <= j < i ==> !at_cell(#[trigger] els[j], group, period)
}

/// The first index of an element in the given cell, if any.
pub open spec fn first_at(els: Seq<Element>, group: int, period: int) -> Option<int> {
    if exists|i: int| is_first_at(els, group, period, i) {
        Some(choose|i: int| is_first_at(els, group, period, i))
    } else {
        None
    }
}

/// `i` is the first index whose text equals `q`.
pub open spec fn is_first_text(texts: Seq<Seq<char>>, q: Seq<char>, i: int) -> bool {
    &&& 0 <= i < texts.len()
    &&& texts[i] == q
    &&& forall|j: int| 0 <= j < i ==> #[trigger] texts[j] != q
}

/// The first index whose text equals `q`, if any.
pub open spec fn first_text(texts: Seq<Seq<char>>, q: Seq<char>) -> Option<int> {
    if exists|i: int| is_first_text(texts, q, i) {
        Some(choose|i: int| is_first_text(texts, q, i))
    } else {
        None
    }
}

/// The lowercased symbols of the catalog, in order.
pub open spec fn folded_symbols(els: Seq<Element>) -> Seq<Seq<char>> {
    els.map_values(|e: Element| lower_of(e.symbol@))
}

/// The widened value of an index.
pub open spec fn as_int(o: Option<usize>) -> Option<int> {
    match o {
        Some(i) => Some(i as int),
        None => None,
    }
}

/// The selection after a vertical move by `delta` periods from `i`.
pub open spec fn vertical(els: Seq<Element>, i: int, delta: int) -> Option<int> {
    match first_at(els, els[i].group as int, els[i].period + delta) {
        Some(j) => Some(j),
        None => Some(i),
    }
}

/// The selection after a command.
pub open spec fn spec_next_selection(els: Seq<Element>, sel: Option<usize>, cmd: Command) -> Option<
    int,
> {
    match cmd {
        Command::Escape => None,
        Command::MoveRight => match sel {
            None => Some(0),
            Some(i) => Some(if i + 1 >= els.len() { 0 } else { i + 1 }),
        },
        Command::MoveLeft => match sel {
            None => Some(0),
            Some(i) => Some(if i == 0 { 0 } else { i - 1 }),
        },
        Command::MoveDown => match sel {
            None => Some(0),
            Some(i) => vertical(els, i as int, 1),
        },
        Command::MoveUp => match sel {
            None => Some(0),
            Some(i) => vertical(els, i as int, -1),
        },
        Command::SearchBySymbol(text) => match first_text(folded_symbols(els), lower_of(text@)) {
            Some(j) => Some(j),
            None => as_int(sel),
        },
        Command::PointerDown { x, y, scale } => if scale < 2 {
            as_int(sel)
        } else {
            let cell = spec_screen_to_cell(x as int, y as int, scale as int);
            match first_at(els, cell.0, cell.1) {
                Some(j) => Some(j),
                None => as_int(sel),
            }
        },
        Command::SetColoringMode(_) => as_int(sel),
        Command::Quit => as_int(sel),
    }
}

/// What the loop does after a command.
pub open spec fn spec_action(els: Seq<Element>, sel: Option<usize>, cmd: Command) -> Action {
    match cmd {
        Command::Escape => Action::RedrawAll,
        Command::MoveRight => Action::MoveHighlight { previous: sel },
        Command::MoveLeft => Action::MoveHighlight { previous: sel },
        Command::MoveDown | Command::MoveUp => match sel {
            None => Action::MoveHighlight { previous: None },
            Some(i) => if spec_next_selection(els, sel, cmd) == Some(i as int) {
                Action::Nothing
            } else {
                Action::MoveHighlight { previous: sel }
            },
        },
        Command::SearchBySymbol(_) => Action::RedrawAll,
        Command::PointerDown { x, y, scale } => if scale >= 2 && first_at(
            els,
            spec_screen_to_cell(x as int, y as int, scale as int).0,
            spec_screen_to_cell(x as int, y as int, scale as int).1,
        ) is Some {
            Action::MoveHighlight { previous: sel }
        } else {
            Action::Nothing
        },
        Command::SetColoringMode(_) => Action::RedrawAll,
        Command::Quit => Action::Quit,
    }
}

/// The first index whose folded symbol equals the folded query.
pub fn find_folded_symbol(folded_symbols: &Vec<String>, folded_query: &String) -> (r: Option<usize>)
    ensures
        as_int(r) == first_text(folded_symbols@.map_values(|s: String| s@), folded_query@),
{
    let ghost texts = folded_symbols@.map_values(|s: String| s@);
    let mut i: usize = 0;
    while i < folded_symbols.len()
        invariant
            texts == folded_symbols@.map_values(|s: String| s@),
            i <= folded_symbols.len(),
            forall|j: int| 0 <= j < i ==> #[trigger] texts[j] != folded_query@,
        decreases folded_symbols.len() - i,
    {
        if folded_symbols[i] == *folded_query {
            assert(is_first_text(texts, folded_query@, i as int));
            proof {
                lemma_first_text_unique(texts, folded_query@, i as int);
            }
            return Some(i);
        }
        i += 1;
    }
    assert(!exists|k: int| is_first_text(texts, folded_query@, k));
    None
}

proof fn lemma_first_text_unique(texts: Seq<Seq<char>>, q: Seq<char>, i: int)
    requires
        is_first_text(texts, q, i),
    ensures
        first_text(texts, q) == Some(i),
{
    let k = choose|k: int| is_first_text(texts, q, k);
    if k < i {
        assert(texts[k] != q);
    } else if k > i {
        assert(texts[i] != q);
    }
}

proof fn lemma_first_at_unique(els: Seq<Element>, group: int, period: int, i: int)
    requires
        is_first_at(els, group, period, i),
    ensures
        first_at(els, group, period) == Some(i),
{
    let k = choose|k: int| is_first_at(els, group, period, k);
    if k < i {
        assert(!at_cell(els[k], group, period));
    } else if k > i {
        assert(!at_cell(els[i], group, period));
    }
}

/// A full catalog whose row at each index holds the element with atomic
/// number one more than that index.
pub open spec fn catalog_ordered(els: Seq<Element>) -> bool {
    &&& els.len() == CATALOG_SIZE
    &&& forall|j: int| 0 <= j < els.len() ==> (#[trigger] els[j]).number == j + 1
}

/// The catalog together with the selection and the coloring mode.
pub struct Peri {
    elements: Vec<Element>,
    selection_index: Option<usize>,
    coloring_mode: ColoringMode,
}

impl Peri {
    /// The catalog, in order of atomic number.
    pub closed spec fn elements(self) -> Seq<Element> {
        self.elements@
    }

    /// The index of the selected element, if any.
    pub closed spec fn selection(self) -> Option<usize> {
        self.selection_index
    }

    /// The active coloring mode.
    pub closed spec fn mode(self) -> ColoringMode {
        self.coloring_mode
    }

    pub open spec fn wf(self) -> bool {
        &&& catalog_ordered(self.elements())
        &&& self.selection() matches Some(i) ==> i < self.elements().len()
    }

    /// A state over a full catalog in order of atomic number, with nothing
    /// selected and no coloring.
    pub fn new(elements: Vec<Element>) -> (r: Result<Peri, CatalogError>)
        ensures
            r is Ok <==> catalog_ordered(elements@),
            (r == Err::<Peri, CatalogError>(CatalogError::WrongLength)) <==> elements@.len()
                != CATALOG_SIZE,
            r matches Err(CatalogError::OutOfOrder { index }) ==> {
                &&& elements@.len() == CATALOG_SIZE
                &&& index < CATALOG_SIZE
                &&& elements@[index as int].number != index + 1
                &&& forall|j: int| 0 <= j < index ==> (#[trigger] elements@[j]).number == j + 1
            },
            r is Err ==> r matches Err(CatalogError::WrongLength) || r matches Err(
                CatalogError::OutOfOrder { .. },
            ),
            r matches Ok(p) ==> p.wf() && p.elements() == elements@ && p.selection() is None
                && p.mode() == ColoringMode::Uncolored,
    {
        if elements.len() != CATALOG_SIZE {
            return Err(CatalogError::WrongLength);
        }
        let mut i: usize = 0;
        while i < CATALOG_SIZE
            invariant
                elements@.len() == CATALOG_SIZE,
                i <= CATALOG_SIZE,
                forall|j: int| 0 <= j < i ==> (#[trigger] elements@[j]).number == j + 1,
            decreases CATALOG_SIZE - i,
        {
            if elements[i].number as usize != i + 1 {
                return Err(CatalogError::OutOfOrder { index: i });
            }
            i += 1;
        }
        Ok(Peri { elements, selection_index: None, coloring_mode: ColoringMode::Uncolored })
    }

    /// The first element in cell `(x, y)`, as `(group, period)`.
    pub fn find_element_by_pos(&self, x: u16, y: u16) -> (r: Option<usize>)
        ensures
            as_int(r) == first_at(self.elements(), x as int, y as int),
    {
        let ghost els = self.elements();
        let mut i: usize = 0;
        while i < self.elements.len()
            invariant
                els == self.elements(),
                i <= els.len(),
                forall|j: int| 0 <= j < i ==> !at_cell(#[trigger] els[j], x as int, y as int),
            decreases els.len() - i,
        {
            if self.elements[i].group == x && self.elements[i].period == y {
                proof {
                    lemma_first_at_unique(els, x as int, y as int, i as int);
                }
                return Some(i);
            }
            i += 1;
        }
        assert(!exists|k: int| is_first_at(els, x as int, y as int, k));
        None
    }

    /// The first element whose symbol equals `symbol`, ignoring case.
    pub fn find_element_by_symbol(&self, symbol: &str) -> (r: Option<usize>)
        ensures
            as_int(r) == first_text(folded_symbols(self.elements()), lower_of(symbol@)),
    {
        let ghost els = self.elements();
        let query = lowercase(symbol);
        let mut folded: Vec<String> = Vec::new();
        let mut i: usize = 0;
        while i < self.elements.len()
            invariant
                els == self.elements(),
                i <= els.len(),
                folded@.len() == i,
                forall|j: int| 0 <= j < i ==> #[trigger] folded@[j]@ == lower_of(els[j].symbol@),
            decreases els.len() - i,
        {
            folded.push(lowercase(self.elements[i].symbol.as_str()));
            i += 1;
        }
        assert(folded@.map_values(|s: String| s@) =~= folded_symbols(els));
        find_folded_symbol(&folded, &query)
    }
    /// The first element in the same group as the element at `i`, one period
    /// below it (`down`) or above it, if there is one.
    fn vertical_target(&self, i: usize, down: bool) -> (r: Option<usize>)
        requires
            i < self.elements().len(),
        ensures
            as_int(r) == first_at(
                self.elements(),
                self.elements()[i as int].group as int,
                self.elements()[i as int].period + if down { 1int } else { -1int },
            ),
    {
        let group = self.elements[i].group;
        let period = self.elements[i].period;
        let ghost target = period + if down { 1int } else { -1int };
        if down && period < u16::MAX {
            self.find_element_by_pos(group, period + 1)
        } else if !down && period > 0 {
            self.find_element_by_pos(group, period - 1)
        } else {
            assert(!exists|k: int| is_first_at(self.elements(), group as int, target, k));
            None
        }
    }

    /// Carries out one command: updates the selection and the coloring mode,
    /// and says what to redraw.
    pub fn apply(&mut self, cmd: Command) -> (a: Action)
        requires
            old(self).wf(),
        ensures
            final(self).wf(),
            final(self).elements() == old(self).elements(),
            as_int(final(self).selection()) == spec_next_selection(
                old(self).elements(),
                old(self).selection(),
                cmd,
            ),
            final(self).mode() == (match cmd {
                Command::SetColoringMode(m) => m,
                _ => old(self).mode(),
            }),
            a == spec_action(old(self).elements(), old(self).selection(), cmd),
    {
        let n = self.elements.len();
        match cmd {
            Command::Escape => {
                self.selection_index = None;
                Action::RedrawAll
            },
            Command::MoveRight => {
                let previous = self.selection_index;
                self.selection_index = match previous {
                    None => Some(0),
                    Some(i) => Some(if i + 1 >= n { 0 } else { i + 1 }),
                };
                Action::MoveHighlight { previous }
            },
            Command::MoveLeft => {
                let previous = self.selection_index;
                self.selection_index = match previous {
                    None => Some(0),
                    Some(i) => Some(i.saturating_sub(1)),
                };
                Action::MoveHighlight { previous }
            },
            Command::MoveDown | Command::MoveUp => {
                let down = match cmd {
                    Command::MoveDown => true,
                    _ => false,
                };
                match self.selection_index {
                    None => {
                        self.selection_index = Some(0);
                        Action::MoveHighlight { previous: None }
                    },
                    Some(i) => match self.vertical_target(i, down) {
                        None => Action::Nothing,
                        Some(j) => {
                            proof {
                                let els = self.elements();
                                let g = els[i as int].group as int;
                                let t = els[i as int].period + if down { 1int } else { -1int };
                                assert(exists|k: int| is_first_at(els, g, t, k));
                                assert(is_first_at(els, g, t, j as int));
                                assert(j != i);
                            }
                            self.selection_index = Some(j);
                            Action::MoveHighlight { previous: Some(i) }
                        },
                    },
                }
            },
            Command::SearchBySymbol(text) => {
                match self.find_element_by_symbol(text.as_str()) {
                    Some(j) => {
                        self.selection_index = Some(j);
                    },
                    None => {},
                }
                Action::RedrawAll
            },
            Command::PointerDown { x, y, scale } => {
                match screen_to_cell(x, y, scale) {
                    None => Action::Nothing,
                    Some(cell) => match self.find_element_by_pos(cell.0, cell.1) {
                        None => Action::Nothing,
                        Some(j) => {
                            let previous = self.selection_index;
                            self.selection_index = Some(j);
                            Action::MoveHighlight { previous }
                        },
                    },
                }
            },
            Command::SetColoringMode(m) => {
                self.coloring_mode = m;
                Action::RedrawAll
            },
            Command::Quit => Action::Quit,
        }
    }
    /// The catalog, in order of atomic number.
    pub fn catalog(&self) -> (r: &Vec<Element>)
        ensures
            r@ == self.elements(),
    {
        &self.elements
    }

    /// The index of the selected element, if any.
    pub fn selection_index(&self) -> (r: Option<usize>)
        ensures
            r == self.selection(),
    {
        self.selection_index
    }

    /// The active coloring mode.
    pub fn coloring_mode(&self) -> (r: ColoringMode)
        ensures
            r == self.mode(),
    {
        self.coloring_mode
    }

    /// The `(foreground, background)` pair that `element` is drawn with under
    /// the active coloring mode.
    pub fn get_color(&self, element: &Element) -> (r: (Color, Color))
        ensures
            r == spec_color_for(element, self.mode()),
    {
        color_for(element, self.coloring_mode)
    }
}

/// From no selection, each of the four moves selects the first element.
pub proof fn lemma_move_from_unselected(els: Seq<Element>, cmd: Command)
    requires
        cmd is MoveRight || cmd is MoveLeft || cmd is MoveDown || cmd is MoveUp,
    ensures
        spec_next_selection(els, None, cmd) == Some(0int),
{
}

/// Moving right from the last element wraps around to the first.
pub proof fn lemma_move_right_wraps(els: Seq<Element>)
    requires
        els.len() > 0,
        els.len() <= usize::MAX,
    ensures
        spec_next_selection(els, Some((els.len() - 1) as usize), Command::MoveRight) == Some(0int),
{
}

/// A vertical move selects the first element in the same group one period
/// further on, where there is one, and otherwise keeps the selection.
pub proof fn lemma_vertical_adjacency(els: Seq<Element>, i: usize)
    requires
        i < els.len(),
    ensures
        spec_next_selection(els, Some(i), Command::MoveDown) == (match first_at(
            els,
            els[i as int].group as int,
            els[i as int].period + 1,
        ) {
            Some(j) => Some(j),
            None => Some(i as int),
        }),
        spec_next_selection(els, Some(i), Command::MoveUp) == (match first_at(
            els,
            els[i as int].group as int,
            els[i as int].period - 1,
        ) {
            Some(j) => Some(j),
            None => Some(i as int),
        }),
        first_at(els, els[i as int].group as int, els[i as int].period + 1) matches Some(j)
            ==> at_cell(els[j], els[i as int].group as int, els[i as int].period + 1),
{
    let g = els[i as int].group as int;
    let t = els[i as int].period + 1;
    if exists|k: int| is_first_at(els, g, t, k) {
        let j = choose|k: int| is_first_at(els, g, t, k);
        assert(at_cell(els[j], g, t));
    }
}

/// Where exactly one element of the catalog sits one period further on in
/// the group of the selected element, a vertical move selects it; in an
/// ordered catalog that index is its atomic number less one.
pub proof fn lemma_move_to_unique_neighbour(els: Seq<Element>, i: usize, k: int, down: bool)
    requires
        i < els.len(),
        0 <= k < els.len(),
        at_cell(
            els[k],
            els[i as int].group as int,
            els[i as int].period + if down { 1int } else { -1int },
        ),
        forall|j: int|
            0 <= j < els.len() && at_cell(
                #[trigger] els[j],
                els[i as int].group as int,
                els[i as int].period + if down { 1int } else { -1int },
            ) ==> j == k,
    ensures
        spec_next_selection(els, Some(i), if down { Command::MoveDown } else { Command::MoveUp })
            == Some(k),
        catalog_ordered(els) ==> k == els[k].number - 1,
{
    let g = els[i as int].group as int;
    let t = els[i as int].period + if down { 1int } else { -1int };
    assert forall|j: int| 0 <= j < k implies !at_cell(#[trigger] els[j], g, t) by {
        if at_cell(els[j], g, t) {
            assert(j == k);
        }
    }
    assert(is_first_at(els, g, t, k));
    lemma_first_at_unique(els, g, t, k);
}

} // verus!
