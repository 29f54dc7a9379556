use seamless_focus::decimal::{parse_u32, render_u32};
use seamless_focus::direction::Direction;
use seamless_focus::fields::{append_bytes, find_field_end, find_field_start, nth_field};
use seamless_focus::local::{pane_status_format, pane_status_says_neighbor, select_flag, title_is_client};
use seamless_focus::protocol::{
    has_pane_command, move_pane_command, parse_has_pane_reply, registry_dir, socket_path,
};
use seamless_focus::error::ResolveError;

const ALL: [Direction; 4] = [Direction::Up, Direction::Down, Direction::Left, Direction::Right];

#[test]
fn direction_words_are_lowercase_names() {
    assert_eq!(Direction::Up.word(), b"up".to_vec());
    assert_eq!(Direction::Down.word(), b"down".to_vec());
    assert_eq!(Direction::Left.word(), b"left".to_vec());
    assert_eq!(Direction::Right.word(), b"right".to_vec());
}

#[test]
fn direction_compass_letters() {
    assert_eq!(Direction::Up.compass_letter(), b'U');
    assert_eq!(Direction::Down.compass_letter(), b'D');
    assert_eq!(Direction::Left.compass_letter(), b'L');
    assert_eq!(Direction::Right.compass_letter(), b'R');
}

#[test]
fn direction_pane_edges_use_top_and_bottom() {
    assert_eq!(Direction::Up.pane_edge(), b"top".to_vec());
    assert_eq!(Direction::Down.pane_edge(), b"bottom".to_vec());
    assert_eq!(Direction::Left.pane_edge(), b"left".to_vec());
    assert_eq!(Direction::Right.pane_edge(), b"right".to_vec());
}

#[test]
fn direction_forms_are_pairwise_distinct() {
    for (i, a) in ALL.iter().enumerate() {
        for (j, b) in ALL.iter().enumerate() {
            if i != j {
                assert_ne!(a.word(), b.word());
                assert_ne!(a.compass_letter(), b.compass_letter());
                assert_ne!(a.pane_edge(), b.pane_edge());
            }
        }
    }
}

#[test]
fn direction_mapping_is_stable() {
    for d in ALL.iter() {
        assert_eq!(d.word(), d.word());
        assert_eq!(d.compass_letter(), d.compass_letter());
        assert_eq!(d.compass_letter().to_ascii_lowercase(), d.word()[0]);
    }
}

#[test]
fn parse_u32_reads_plain_numbers() {
    assert_eq!(parse_u32(b"0"), Some(0));
    assert_eq!(parse_u32(b"7"), Some(7));
    assert_eq!(parse_u32(b"4242"), Some(4242));
    assert_eq!(parse_u32(b"007"), Some(7));
    assert_eq!(parse_u32(b"4294967295"), Some(u32::MAX));
}

#[test]
fn parse_u32_takes_one_leading_plus() {
    assert_eq!(parse_u32(b"+5"), Some(5));
    assert_eq!(parse_u32(b"++5"), None);
    assert_eq!(parse_u32(b"+"), None);
}

#[test]
fn parse_u32_rejects_what_is_no_number() {
    assert_eq!(parse_u32(b""), None);
    assert_eq!(parse_u32(b"-1"), None);
    assert_eq!(parse_u32(b"12a"), None);
    assert_eq!(parse_u32(b" 12"), None);
    assert_eq!(parse_u32(b"12\n"), None);
    assert_eq!(parse_u32(b"S"), None);
}

#[test]
fn parse_u32_rejects_overflow() {
    assert_eq!(parse_u32(b"4294967296"), None);
    assert_eq!(parse_u32(b"99999999999999999999999999"), None);
    assert_eq!(parse_u32(b"00000000000000000000000001"), Some(1));
}

#[test]
fn parse_u32_agrees_with_std() {
    let samples: [&str; 9] = ["0", "10", "+33", "4294967295", "4294967296", "", "+", "1_0", "0x1"];
    for s in samples.iter() {
        assert_eq!(parse_u32(s.as_bytes()), s.parse::<u32>().ok());
    }
}

#[test]
fn render_u32_writes_decimal() {
    assert_eq!(render_u32(0), b"0".to_vec());
    assert_eq!(render_u32(9), b"9".to_vec());
    assert_eq!(render_u32(10), b"10".to_vec());
    assert_eq!(render_u32(4242), b"4242".to_vec());
    assert_eq!(render_u32(u32::MAX), b"4294967295".to_vec());
}

#[test]
fn render_then_parse_gives_the_number() {
    let samples: [u32; 7] = [0, 1, 9, 10, 99, 1_000_000, u32::MAX];
    for n in samples.iter() {
        assert_eq!(parse_u32(&render_u32(*n)), Some(*n));
    }
}

#[test]
fn fields_are_cut_at_every_separator() {
    let s = b"a bc  d";
    assert_eq!(nth_field(s, b' ', 0), Some(&b"a"[..]));
    assert_eq!(nth_field(s, b' ', 1), Some(&b"bc"[..]));
    assert_eq!(nth_field(s, b' ', 2), Some(&b""[..]));
    assert_eq!(nth_field(s, b' ', 3), Some(&b"d"[..]));
    assert_eq!(nth_field(s, b' ', 4), None);
    assert_eq!(nth_field(s, b' ', 100), None);
}

#[test]
fn fields_of_empty_text() {
    assert_eq!(nth_field(b"", b' ', 0), Some(&b""[..]));
    assert_eq!(nth_field(b"", b' ', 1), None);
    assert_eq!(nth_field(b" ", b' ', 1), Some(&b""[..]));
}

#[test]
fn field_positions() {
    let s = b"12.sock";
    assert_eq!(find_field_end(s, b'.', 0), 2);
    assert_eq!(find_field_end(s, b'.', 3), 7);
    assert_eq!(find_field_end(s, b'.', 7), 7);
    assert_eq!(find_field_start(s, b'.', 0), Some(0));
    assert_eq!(find_field_start(s, b'.', 1), Some(3));
    assert_eq!(find_field_start(s, b'.', 2), None);
}

#[test]
fn has_pane_command_text() {
    assert_eq!(has_pane_command(Direction::Up), b"has_pane up".to_vec());
    assert_eq!(has_pane_command(Direction::Down), b"has_pane down".to_vec());
    assert_eq!(has_pane_command(Direction::Left), b"has_pane left".to_vec());
    assert_eq!(has_pane_command(Direction::Right), b"has_pane right".to_vec());
}

#[test]
fn move_pane_command_text() {
    assert_eq!(move_pane_command(Direction::Up), b"move_pane up".to_vec());
    assert_eq!(move_pane_command(Direction::Down), b"move_pane down".to_vec());
    assert_eq!(move_pane_command(Direction::Left), b"move_pane left".to_vec());
    assert_eq!(move_pane_command(Direction::Right), b"move_pane right".to_vec());
}

#[test]
fn socket_path_is_in_registry_dir() {
    assert_eq!(registry_dir(), b"/tmp/ssht/".to_vec());
    assert_eq!(socket_path(4242), b"/tmp/ssht/4242.sock".to_vec());
    assert_eq!(socket_path(0), b"/tmp/ssht/0.sock".to_vec());
    assert_eq!(socket_path(u32::MAX), b"/tmp/ssht/4294967295.sock".to_vec());
}

#[test]
fn reply_true_and_false_are_answers() {
    assert_eq!(parse_has_pane_reply(b"true"), Ok(true));
    assert_eq!(parse_has_pane_reply(b"false"), Ok(false));
}

#[test]
fn any_other_reply_is_a_protocol_violation() {
    let bad: [&[u8]; 10] = [
        b"", b"t", b"tru", b"true\n", b" true", b"TRUE", b"True", b"fals", b"false ", b"\xff\xfe",
    ];
    for reply in bad.iter() {
        assert_eq!(parse_has_pane_reply(reply), Err(ResolveError::ProtocolViolation));
    }
    assert_eq!(parse_has_pane_reply(b"1"), Err(ResolveError::ProtocolViolation));
    assert_eq!(parse_has_pane_reply(b"truefalse"), Err(ResolveError::ProtocolViolation));
}

#[test]
fn client_titles_start_with_tmux() {
    assert!(title_is_client(b"tmux"));
    assert!(title_is_client(b"tmux: 1 zsh"));
    assert!(!title_is_client(b""));
    assert!(!title_is_client(b"tmu"));
    assert!(!title_is_client(b" tmux"));
    assert!(!title_is_client(b"Tmux"));
    assert!(!title_is_client(b"vim - tmux"));
}

#[test]
fn pane_status_format_text() {
    assert_eq!(pane_status_format(Direction::Up), b"#{pane_at_top}".to_vec());
    assert_eq!(pane_status_format(Direction::Down), b"#{pane_at_bottom}".to_vec());
    assert_eq!(pane_status_format(Direction::Left), b"#{pane_at_left}".to_vec());
    assert_eq!(pane_status_format(Direction::Right), b"#{pane_at_right}".to_vec());
}

#[test]
fn select_flag_text() {
    assert_eq!(select_flag(Direction::Up), b"-U".to_vec());
    assert_eq!(select_flag(Direction::Down), b"-D".to_vec());
    assert_eq!(select_flag(Direction::Left), b"-L".to_vec());
    assert_eq!(select_flag(Direction::Right), b"-R".to_vec());
}

#[test]
fn pane_status_zero_means_neighbor() {
    assert_eq!(pane_status_says_neighbor(b"0\n"), Ok(true));
    assert_eq!(pane_status_says_neighbor(b"0"), Ok(true));
    assert_eq!(pane_status_says_neighbor(b"1\n"), Ok(false));
    assert_eq!(pane_status_says_neighbor(b"\n"), Ok(false));
}

#[test]
fn empty_pane_status_is_an_error() {
    assert_eq!(pane_status_says_neighbor(b""), Err(ResolveError::LocalStatusMissing));
}

#[test]
fn error_messages_differ() {
    let all: [ResolveError; 7] = [
        ResolveError::LocalStatusMissing,
        ResolveError::EnvironmentRead,
        ResolveError::AncestryTooDeep,
        ResolveError::AmbiguousPeer,
        ResolveError::PeerUnreachable,
        ResolveError::ProtocolViolation,
        ResolveError::DispatchFailed,
    ];
    for (i, a) in all.iter().enumerate() {
        assert!(!a.message().is_empty());
        for (j, b) in all.iter().enumerate() {
            if i != j {
                assert_ne!(a.message(), b.message());
            }
        }
    }
}

#[test]
fn append_bytes_keeps_what_was_there() {
    let mut text: Vec<u8> = b"ab".to_vec();
    append_bytes(&mut text, b"cd");
    assert_eq!(text, b"abcd".to_vec());
    append_bytes(&mut text, b"");
    assert_eq!(text, b"abcd".to_vec());
}
