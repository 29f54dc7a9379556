use vstd::prelude::*;
use crate::decimal::{decimal_digits, render_u32};
use crate::direction::Direction;
use crate::error::ResolveError;
use crate::fields::append_bytes;

verus! {

/// The text `has_pane `, with which an existence query starts.
pub open spec fn has_pane_prefix() -> Seq<u8> {
    seq![104, 97, 115, 95, 112, 97, 110, 101, 32]
}

/// The text `move_pane `, with which a move command starts.
pub open spec fn move_pane_prefix() -> Seq<u8> {
    seq![109, 111, 118, 101, 95, 112, 97, 110, 101, 32]
}

/// The reply `true`.
pub open spec fn reply_true() -> Seq<u8> {
    seq![116, 114, 117, 101]
}

/// The reply `false`.
pub open spec fn reply_false() -> Seq<u8> {
    seq![102, 97, 108, 115, 101]
}

/// The directory in which peers register, `/tmp/ssht/`.
pub open spec fn registry_dir_spec() -> Seq<u8> {
    seq![47, 116, 109, 112, 47, 115, 115, 104, 116, 47]
}

/// The ending of a socket's name, `.sock`.
pub open spec fn socket_suffix() -> Seq<u8> {
    seq![46, 115, 111, 99, 107]
}

/// The command that asks a peer whether its active pane has a neighbor in
/// a direction: `has_pane`, a space, the direction's word.
pub open spec fn has_pane_command_spec(direction: Direction) -> Seq<u8> {
    has_pane_prefix() + direction.word_spec()
}

/// The command that tells a peer to select the neighbor in a direction:
/// `move_pane`, a space, the direction's word.
pub open spec fn move_pane_command_spec(direction: Direction) -> Seq<u8> {
    move_pane_prefix() + direction.word_spec()
}

/// The name of the socket entry of a peer: its process id in decimal, then
/// `.sock`.
pub open spec fn socket_name_spec(peer: u32) -> Seq<u8> {
    decimal_digits(peer as nat) + socket_suffix()
}

/// The path of the socket of a peer, inside the registry directory.
pub open spec fn socket_path_spec(peer: u32) -> Seq<u8> {
    registry_dir_spec() + socket_name_spec(peer)
}

/// What a reply to `has_pane` means. Only the exact texts `true` and
/// `false` are answers; anything else, the empty reply included, breaks
/// the protocol.
pub open spec fn has_pane_reply(reply: Seq<u8>) -> Result<bool, ResolveError> {
    if reply == reply_true() {
        Ok(true)
    } else if reply == reply_false() {
        Ok(false)
    } else {
        Err(ResolveError::ProtocolViolation)
    }
}

/// The registry directory.
pub fn registry_dir() -> (dir: Vec<u8>)
    ensures
        dir@ == registry_dir_spec(),
{
    let dir: Vec<u8> = vec![47, 116, 109, 112, 47, 115, 115, 104, 116, 47];
    assert(dir@ =~= registry_dir_spec());
    dir
}

/// Builds the existence query for a direction.
pub fn has_pane_command(direction: Direction) -> (command: Vec<u8>)
    ensures
        command@ == has_pane_command_spec(direction),
{
    let mut command: Vec<u8> = vec![104, 97, 115, 95, 112, 97, 110, 101, 32];
    assert(command@ =~= has_pane_prefix());
    let word = direction.word();
    append_bytes(&mut command, word.as_slice());
    command
}

/// Builds the move command for a direction.
pub fn move_pane_command(direction: Direction) -> (command: Vec<u8>)
    ensures
        command@ == move_pane_command_spec(direction),
{
    let mut command: Vec<u8> = vec![109, 111, 118, 101, 95, 112, 97, 110, 101, 32];
    assert(command@ =~= move_pane_prefix());
    let word = direction.word();
    append_bytes(&mut command, word.as_slice());
    command
}

/// Builds the path of a peer's socket.
pub fn socket_path(peer: u32) -> (path: Vec<u8>)
    ensures
        path@ == socket_path_spec(peer),
{
    let mut path = registry_dir();
    let digits = render_u32(peer);
    append_bytes(&mut path, digits.as_slice());
    let suffix: Vec<u8> = vec![46, 115, 111, 99, 107];
    assert(suffix@ =~= socket_suffix());
    append_bytes(&mut path, suffix.as_slice());
    assert(path@ =~= socket_path_spec(peer));
    path
}

/// Reads a peer's reply to `has_pane`.
pub fn parse_has_pane_reply(reply: &[u8]) -> (r: Result<bool, ResolveError>)
    ensures
        r == has_pane_reply(reply@),
{
    if reply.len() == 4 && reply[0] == 116 && reply[1] == 114 && reply[2] == 117 && reply[3]
        == 101 {
        assert(reply@ =~= reply_true());
        Ok(true)
    } else if reply.len() == 5 && reply[0] == 102 && reply[1] == 97 && reply[2] == 108
        && reply[3] == 115 && reply[4] == 101 {
        assert(reply@ =~= reply_false());
        Ok(false)
    } else {
        assert(reply@ != reply_true()) by {
            if reply@ == reply_true() {
                assert(reply@.len() == 4);
                assert(reply@[0] == 116 && reply@[1] == 114 && reply@[2] == 117 && reply@[3] == 101);
            }
        }
        assert(reply@ != reply_false()) by {
            if reply@ == reply_false() {
                assert(reply@.len() == 5);
                assert(reply@[0] == 102 && reply@[1] == 97 && reply@[2] == 108 && reply@[3] == 115
                    && reply@[4] == 101);
            }
        }
        Err(ResolveError::ProtocolViolation)
    }
}

} // verus!
