use vstd::prelude::*;

verus! {

/// ASCII `a`.
pub const LOWER_A: u8 = 97;

/// ASCII `z`.
pub const LOWER_Z: u8 = 122;

/// ASCII `A`.
pub const UPPER_A: u8 = 65;

/// ASCII `Z`.
pub const UPPER_Z: u8 = 90;

/// One of the four directions in which focus can move.
#[derive(Clone, Copy, Debug, PartialEq, Eq, Structural)]
pub enum Direction {
    Up,
    Down,
    Left,
    Right,
}

impl Direction {
    /// The lowercase word used in peer commands.
    pub open spec fn word_spec(self) -> Seq<u8> {
        match self {
            Direction::Up => seq![117, 112],  // "up"
            Direction::Down => seq![100, 111, 119, 110],  // "down"
            Direction::Left => seq![108, 101, 102, 116],  // "left"
            Direction::Right => seq![114, 105, 103, 104, 116],  // "right"
        }
    }

    /// The compass letter that the local multiplexer's selection command takes.
    pub open spec fn compass_letter_spec(self) -> u8 {
        match self {
            Direction::Up => 85,  // 'U'
            Direction::Down => 68,  // 'D'
            Direction::Left => 76,  // 'L'
            Direction::Right => 82,  // 'R'
        }
    }

    /// The pane edge that the local multiplexer's existence query names:
    /// `top` and `bottom` for the vertical directions, the plain word for
    /// the horizontal ones.
    pub open spec fn pane_edge_spec(self) -> Seq<u8> {
        match self {
            Direction::Up => seq![116, 111, 112],  // "top"
            Direction::Down => seq![98, 111, 116, 116, 111, 109],  // "bottom"
            Direction::Left => Direction::Left.word_spec(),
            Direction::Right => Direction::Right.word_spec(),
        }
    }

    /// The direction's word, as bytes.
    pub fn word(self) -> (w: Vec<u8>)
        ensures
            w@ == self.word_spec(),
    {
        let w = match self {
            Direction::Up => vec![117, 112],  // "up"
            Direction::Down => vec![100, 111, 119, 110],  // "down"
            Direction::Left => vec![108, 101, 102, 116],  // "left"
            Direction::Right => vec![114, 105, 103, 104, 116],  // "right"
        };
        assert(w@ =~= self.word_spec());
        w
    }

    /// The direction's compass letter.
    pub fn compass_letter(self) -> (c: u8)
        ensures
            c == self.compass_letter_spec(),
    {
        match self {
            Direction::Up => 85,  // 'U'
            Direction::Down => 68,  // 'D'
            Direction::Left => 76,  // 'L'
            Direction::Right => 82,  // 'R'
        }
    }

    /// The pane edge that lies in the direction, as bytes.
    pub fn pane_edge(self) -> (e: Vec<u8>)
        ensures
            e@ == self.pane_edge_spec(),
    {
        let e = match self {
            Direction::Up => vec![116, 111, 112],  // "top"
            Direction::Down => vec![98, 111, 116, 116, 111, 109],  // "bottom"
            Direction::Left => vec![108, 101, 102, 116],  // "left"
            Direction::Right => vec![114, 105, 103, 104, 116],  // "right"
        };
        assert(e@ =~= self.pane_edge_spec());
        e
    }

    /// Two different directions never share a word, a compass letter or a
    /// pane edge, so each serialized form determines its direction.
    pub proof fn lemma_forms_are_distinct(a: Direction, b: Direction)
        requires
            a != b,
        ensures
            a.word_spec() != b.word_spec(),
            a.compass_letter_spec() != b.compass_letter_spec(),
            a.pane_edge_spec() != b.pane_edge_spec(),
    {
        assert(a.word_spec()[0] != b.word_spec()[0]);
        assert(a.pane_edge_spec()[0] != b.pane_edge_spec()[0]);
    }

    /// Every form is plain ASCII: lowercase letters for the word and the
    /// pane edge, and for the compass form the word's initial in upper case.
    pub proof fn lemma_forms_are_letters(d: Direction)
        ensures
            forall|i: int|
                0 <= i < d.word_spec().len() ==> LOWER_A <= #[trigger] d.word_spec()[i] <= LOWER_Z,
            forall|i: int|
                0 <= i < d.pane_edge_spec().len() ==> LOWER_A <= #[trigger] d.pane_edge_spec()[i]
                    <= LOWER_Z,
            UPPER_A <= d.compass_letter_spec() <= UPPER_Z,
            d.compass_letter_spec() + (LOWER_A - UPPER_A) == d.word_spec()[0],
    {
    }
}

} // verus!
