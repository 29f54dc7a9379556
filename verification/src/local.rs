use vstd::prelude::*;
use crate::decimal::DIGIT_ZERO;
use crate::direction::Direction;
use crate::error::ResolveError;
use crate::fields::append_bytes;

verus! {

/// ASCII `-`, with which the selection flag starts.
pub const HYPHEN: u8 = 45;

/// ASCII `}`, with which the status format ends.
pub const CLOSING_BRACE: u8 = 125;

/// The text `tmux`, with which the title of a local client's window starts.
pub open spec fn client_title_prefix() -> Seq<u8> {
    seq![116, 109, 117, 120]
}

/// The text `#{pane_at_`, with which the status format starts.
pub open spec fn pane_status_opening() -> Seq<u8> {
    seq![35, 123, 112, 97, 110, 101, 95, 97, 116, 95]
}

/// Whether a window title is that of a local multiplexer client.
pub open spec fn is_client_title(title: Seq<u8>) -> bool {
    client_title_prefix().is_prefix_of(title)
}

/// The status format that asks the local multiplexer whether the active
/// pane lies at the edge in a direction: `#{pane_at_`, the edge, `}`.
pub open spec fn pane_status_format_spec(direction: Direction) -> Seq<u8> {
    (pane_status_opening() + direction.pane_edge_spec()).push(CLOSING_BRACE)
}

/// The flag that selects the neighbor in a direction: `-` and the compass
/// letter.
pub open spec fn select_flag_spec(direction: Direction) -> Seq<u8> {
    seq![HYPHEN, direction.compass_letter_spec()]
}

/// What the status output says: the active pane has a neighbor exactly
/// when it does not lie at the edge, that is when the output starts with
/// the digit 0. An output without a first byte says nothing, which is an
/// error.
pub open spec fn pane_status(output: Seq<u8>) -> Result<bool, ResolveError> {
    if output.len() == 0 {
        Err(ResolveError::LocalStatusMissing)
    } else {
        Ok(output[0] == DIGIT_ZERO)
    }
}

/// Tells whether a window title is that of a local multiplexer client.
pub fn title_is_client(title: &[u8]) -> (b: bool)
    ensures
        b == is_client_title(title@),
{
    if title.len() >= 4 && title[0] == 116 && title[1] == 109 && title[2] == 117 && title[3]
        == 120 {
        assert(title@.subrange(0, 4) =~= client_title_prefix());
        true
    } else {
        assert(!is_client_title(title@)) by {
            if is_client_title(title@) {
                let p = client_title_prefix();
                assert(p.len() == 4);
                assert(title@.subrange(0, 4) == p);
                assert(title@[0] == title@.subrange(0, 4)[0]);
                assert(title@[1] == title@.subrange(0, 4)[1]);
                assert(title@[2] == title@.subrange(0, 4)[2]);
                assert(title@[3] == title@.subrange(0, 4)[3]);
                assert(p[0] == 116 && p[1] == 109 && p[2] == 117 && p[3] == 120);
            }
        }
        false
    }
}

/// Builds the status format for a direction.
pub fn pane_status_format(direction: Direction) -> (format: Vec<u8>)
    ensures
        format@ == pane_status_format_spec(direction),
{
    let mut format: Vec<u8> = vec![35, 123, 112, 97, 110, 101, 95, 97, 116, 95];
    assert(format@ =~= pane_status_opening());
    let edge = direction.pane_edge();
    append_bytes(&mut format, edge.as_slice());
    format.push(CLOSING_BRACE);
    format
}

/// Builds the selection flag for a direction.
pub fn select_flag(direction: Direction) -> (flag: Vec<u8>)
    ensures
        flag@ == select_flag_spec(direction),
{
    let flag: Vec<u8> = vec![HYPHEN, direction.compass_letter()];
    assert(flag@ =~= select_flag_spec(direction));
    flag
}

/// Reads the status output of the local multiplexer.
pub fn pane_status_says_neighbor(output: &[u8]) -> (r: Result<bool, ResolveError>)
    ensures
        r == pane_status(output@),
{
    if output.len() == 0 {
        Err(ResolveError::LocalStatusMissing)
    } else {
        Ok(output[0] == DIGIT_ZERO)
    }
}

} // verus!
