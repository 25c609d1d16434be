//! Linux process details: the controlling terminal and the process group, as
//! `/proc/<pid>/stat` spells them.

use crate::text;
use crate::text::{dec_of, parse_signed, parse_unsigned, strip_prefix, tail_after, words_of};
use vstd::prelude::*;

verus! {

/// The fields of a stat line after the command in parentheses, which may
/// itself hold parentheses and blanks.
pub open spec fn stat_fields(stat: Seq<char>) -> Option<Seq<Seq<char>>> {
    let k = text::after_last(stat, ')');
    if k == 0 {
        None
    } else {
        Some(text::words(stat.skip(k)))
    }
}

fn fields_of(stat: &str) -> (r: Option<Vec<String>>)
    ensures
        match r {
            Some(v) => stat_fields(stat@) == Some(text::texts(v@)),
            None => stat_fields(stat@) is None,
        },
{
    let rest: String = tail_after(stat, ')');
    proof {
        crate::path::after_last_range(stat@, ')');
    }
    if rest.as_str().unicode_len() == stat.unicode_len() {
        assert(rest@.len() == stat@.len() - text::after_last(stat@, ')'));
        return None;
    }
    Some(words_of(rest.as_str()))
}

/// The terminal number in a stat line.
pub open spec fn tty_nr_of(stat: Seq<char>) -> Option<int> {
    match stat_fields(stat) {
        Some(f) => if f.len() > 4 {
            text::parsed_int(f[4], i32::MIN as int, i32::MAX as int)
        } else {
            None
        },
        None => None,
    }
}

/// Field 7 of `/proc/<pid>/stat`, counted past the comm in parentheses.
pub fn parse_tty_nr(stat: &str) -> (r: Option<i32>)
    ensures
        match r {
            Some(n) => tty_nr_of(stat@) == Some(n as int),
            None => tty_nr_of(stat@) is None,
        },
{
    match fields_of(stat) {
        None => None,
        Some(f) => {
            assert(text::texts(f@).len() == f@.len());
            if f.len() > 4 {
                assert(text::texts(f@)[4] == f@[4]@);
                match parse_signed(f[4].as_str(), -2147483648, 2147483647) {
                    Some(n) => Some(n as i32),
                    None => None,
                }
            } else {
                None
            }
        },
    }
}

/// The process group in a stat line.
pub open spec fn pgid_in(stat: Seq<char>) -> Option<nat> {
    match stat_fields(stat) {
        Some(f) => if f.len() > 2 {
            text::parsed(f[2], u32::MAX as nat)
        } else {
            None
        },
        None => None,
    }
}

/// Process group id, from `/proc/<pid>/stat`: after the parenthesised comm
/// come state, ppid, pgrp.
pub fn parse_pgid(stat: &str) -> (r: Option<u32>)
    ensures
        match r {
            Some(n) => pgid_in(stat@) == Some(n as nat),
            None => pgid_in(stat@) is None,
        },
{
    match fields_of(stat) {
        None => None,
        Some(f) => {
            assert(text::texts(f@).len() == f@.len());
            if f.len() > 2 {
                assert(text::texts(f@)[2] == f@[2]@);
                match parse_unsigned(f[2].as_str(), 4294967295) {
                    Some(n) => Some(n as u32),
                    None => None,
                }
            } else {
                None
            }
        },
    }
}

pub open spec fn dev_major(n: u32) -> u32 {
    (n >> 8) & 0xff
}

pub open spec fn dev_minor(n: u32) -> u32 {
    (n & 0xff) | (((n >> 20) & 0xfff) << 8)
}

/// Linux packs tty major in bits 15–8; minor in 31–20 and 7–0.
pub fn decode_dev(tty_nr: i32) -> (r: (u32, u32))
    ensures
        r.0 == dev_major(tty_nr as u32),
        r.1 == dev_minor(tty_nr as u32),
        r.0 <= 255,
{
    let n: u32 = tty_nr as u32;
    assert((n >> 8) & 0xff <= 255) by (bit_vector);
    ((n >> 8) & 0xff, (n & 0xff) | (((n >> 20) & 0xfff) << 8))
}

/// The name of a terminal: pseudo terminals, virtual consoles and serial
/// lines have one.
pub open spec fn tty_name(tty_nr: i32) -> Option<Seq<char>> {
    let major = dev_major(tty_nr as u32);
    let minor = dev_minor(tty_nr as u32);
    if tty_nr == 0 {
        None
    } else if 136 <= major <= 143 {
        Some("pts/"@ + text::dec(minor as nat))
    } else if major == 4 && minor < 64 {
        Some("tty"@ + text::dec(minor as nat))
    } else if major == 4 {
        Some("ttyS"@ + text::dec((minor - 64) as nat))
    } else {
        None
    }
}

pub fn name_of(tty_nr: i32) -> (r: Option<String>)
    ensures
        text::text_of(r) == tty_name(tty_nr),
{
    if tty_nr == 0 {
        return None;
    }
    let (major, minor): (u32, u32) = decode_dev(tty_nr);
    if 136 <= major && major <= 143 {
        // UNIX98 PTY slaves: /dev/pts/N
        Some("pts/".to_owned().concat(dec_of(minor as u64).as_str()))
    } else if major == 4 && minor < 64 {
        Some("tty".to_owned().concat(dec_of(minor as u64).as_str()))
    } else if major == 4 {
        Some("ttyS".to_owned().concat(dec_of((minor - 64) as u64).as_str()))
    } else {
        None
    }
}

/// The terminal that a stat line and the target of file descriptor 0 tell.
pub open spec fn terminal(stat: Option<Seq<char>>, fd0: Option<Seq<char>>) -> Option<Seq<char>> {
    match stat {
        None => None,
        Some(s) => match tty_nr_of(s) {
            None => None,
            Some(n) => match tty_name(n as i32) {
                Some(t) => Some(t),
                None => match fd0 {
                    Some(link) if text::starts_with(link, "/dev/"@) => Some(link.skip(5)),
                    _ => None,
                },
            },
        },
    }
}

/// Controlling terminal of a process (e.g. `"pts/3"`), from the content of
/// `/proc/<pid>/stat` and, where that names no known device, from where its
/// file descriptor 0 leads.
pub fn tty_of(stat: &Option<String>, fd0: &Option<String>) -> (r: Option<String>)
    ensures
        text::text_of(r) == terminal(text::text_of(*stat), text::text_of(*fd0)),
{
    match stat {
        None => None,
        Some(s) => match parse_tty_nr(s.as_str()) {
            None => None,
            Some(n) => match name_of(n) {
                Some(t) => Some(t),
                None => match fd0 {
                    Some(link) => {
                        proof {
                            reveal_strlit("/dev/");
                        }
                        strip_prefix(link.as_str(), "/dev/")
                    },
                    None => None,
                },
            },
        },
    }
}

/// A device number is put together from its parts and taken apart again: the
/// major in bits 15 to 8, the minor in 31 to 20 and 7 to 0.
pub proof fn device_numbers_read_back(major: u32, minor: u32)
    requires
        major <= 0xff,
        minor <= 0xfffff,
    ensures
        ({
            let n = (minor & 0xff) | (major << 8) | ((minor >> 8) << 20);
            dev_major(n) == major && dev_minor(n) == minor
        }),
{
    let n = (minor & 0xff) | (major << 8) | ((minor >> 8) << 20);
    assert((n >> 8) & 0xff == major) by (bit_vector)
        requires
            n == (minor & 0xff) | (major << 8) | ((minor >> 8) << 20),
            major <= 0xff,
            minor <= 0xfffff,
    ;
    assert((n & 0xff) | (((n >> 20) & 0xfff) << 8) == minor) by (bit_vector)
        requires
            n == (minor & 0xff) | (major << 8) | ((minor >> 8) << 20),
            major <= 0xff,
            minor <= 0xfffff,
    ;
}

/// A terminal is named after its device: pseudo terminals by their number,
/// virtual consoles below 64, serial lines from there on; no terminal and any
/// other device have no name.
pub proof fn terminals_are_named_after_their_device(tty_nr: i32)
    ensures
        ({
            let major = dev_major(tty_nr as u32);
            let minor = dev_minor(tty_nr as u32);
            &&& tty_nr == 0 ==> tty_name(tty_nr) is None
            &&& tty_nr != 0 && 136 <= major <= 143 ==> tty_name(tty_nr) == Some(
                "pts/"@ + text::dec(minor as nat),
            )
            &&& tty_nr != 0 && major == 4 && minor < 64 ==> tty_name(tty_nr) == Some(
                "tty"@ + text::dec(minor as nat),
            )
            &&& tty_nr != 0 && major == 4 && minor >= 64 ==> tty_name(tty_nr) == Some(
                "ttyS"@ + text::dec((minor - 64) as nat),
            )
            &&& major != 4 && !(136 <= major <= 143) ==> tty_name(tty_nr) is None
        }),
{
}

proof fn last_one_is_found(a: Seq<char>, b: Seq<char>, c: char)
    requires
        forall|i: int| 0 <= i < b.len() ==> #[trigger] b[i] != c,
    ensures
        text::after_last(a + seq![c] + b, c) == a.len() + 1,
    decreases b.len(),
{
    let s = a + seq![c] + b;
    if b.len() == 0 {
        assert(s.last() == c);
    } else {
        let rest = b.drop_last();
        assert(s.last() == b[b.len() - 1]);
        assert(s.drop_last() =~= a + seq![c] + rest);
        assert forall|i: int| 0 <= i < rest.len() implies #[trigger] rest[i] != c by {
            assert(rest[i] == b[i]);
        }
        last_one_is_found(a, rest, c);
    }
}

/// Whatever a command is called, parentheses and blanks included, the fields
/// of its stat line are the words behind the last parenthesis: the third is
/// its process group and the fifth its terminal.
pub proof fn stat_fields_follow_the_command(command: Seq<char>, rest: Seq<char>)
    requires
        forall|i: int| 0 <= i < rest.len() ==> #[trigger] rest[i] != ')',
    ensures
        ({
            let stat = command + seq![')'] + rest;
            let f = text::words(rest);
            &&& stat_fields(stat) == Some(f)
            &&& f.len() > 2 ==> pgid_in(stat) == text::parsed(f[2], u32::MAX as nat)
            &&& f.len() > 4 ==> tty_nr_of(stat) == text::parsed_int(
                f[4],
                i32::MIN as int,
                i32::MAX as int,
            )
            &&& f.len() <= 2 ==> pgid_in(stat) is None
            &&& f.len() <= 4 ==> tty_nr_of(stat) is None
        }),
{
    let stat = command + seq![')'] + rest;
    last_one_is_found(command, rest, ')');
    assert(stat.skip(command.len() as int + 1) =~= rest);
}

/// The terminal is the one that the stat line names; only where that is no
/// known device it is what file descriptor 0 leads to below `/dev/`.
pub proof fn the_stat_line_comes_first(stat: Seq<char>, fd0: Option<Seq<char>>)
    ensures
        tty_nr_of(stat) is None ==> terminal(Some(stat), fd0) is None,
        tty_nr_of(stat) is Some && tty_name(tty_nr_of(stat)->0 as i32) is Some ==> terminal(
            Some(stat),
            fd0,
        ) == tty_name(tty_nr_of(stat)->0 as i32),
        tty_nr_of(stat) is Some && tty_name(tty_nr_of(stat)->0 as i32) is None && fd0 is Some
            && text::starts_with(fd0->0, "/dev/"@) ==> terminal(Some(stat), fd0) is Some
            && fd0->0 == "/dev/"@ + terminal(Some(stat), fd0)->0,
        terminal(None, fd0) is None,
{
    reveal_strlit("/dev/");
    if fd0 is Some && text::starts_with(fd0->0, "/dev/"@) {
        let link = fd0->0;
        assert(link.subrange(0, 5) == "/dev/"@);
        assert(link =~= link.subrange(0, 5) + link.skip(5));
    }
}

} // verus!
