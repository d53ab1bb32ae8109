use std::borrow::Cow;
use vstd::prelude::*;
use vstd::utf8::*;

use super::Cmd;
use crate::protocol::wire::{
    cut_ok, decode_text, find_byte, find_in, lemma_ascii_cut, lemma_find_byte, lemma_find_byte_unique,
    lemma_valid_between,
    parse_len, spec_parse_len,
};

verus! {

/// Lists the attached devices.
pub struct Derives;

impl Cmd for Derives {
    open spec fn cmd_text(&self) -> Seq<char> {
        "host:devices"@
    }

    fn cmd(self) -> (r: Cow<'static, str>) {
        Cow::Borrowed("host:devices")
    }
}

/// The line separator of the device list.
pub open spec fn newline() -> u8 {
    0x0a
}

/// The field separator of the device list.
pub open spec fn tab() -> u8 {
    0x09
}

/// The bytes of `s` before its first `b`, or all of `s`.
pub open spec fn field_before(s: Seq<u8>, b: u8) -> Seq<u8> {
    match find_byte(s, b) {
        Some(i) => s.take(i),
        None => s,
    }
}

/// The device a line of the list names: the first field and the second, when
/// the line has at least two tab-separated fields.
pub open spec fn device_entry(line: Seq<u8>) -> Option<(Seq<u8>, Seq<u8>)> {
    match find_byte(line, tab()) {
        Some(i) => Some((line.take(i), field_before(line.skip(i + 1), tab()))),
        None => None,
    }
}

/// The device a line names, as a list of zero or one entries.
pub open spec fn entry_list(line: Seq<u8>) -> Seq<(Seq<u8>, Seq<u8>)> {
    match device_entry(line) {
        Some(e) => seq![e],
        None => Seq::empty(),
    }
}

/// The devices a reply body lists: one per newline-separated line that has a
/// tab, in order.
pub open spec fn device_list(body: Seq<u8>) -> Seq<(Seq<u8>, Seq<u8>)>
    decreases body.len(),
{
    match find_byte(body, newline()) {
        Some(i) => {
            proof {
                lemma_find_byte(body, newline());
            }
            entry_list(body.take(i)) + device_list(body.skip(i + 1))
        },
        None => entry_list(body),
    }
}

/// Device-list law: every listed serial and state is a single field of a
/// single line, holding neither a newline nor a tab, and there are no more
/// devices than lines.
pub proof fn lemma_device_fields(body: Seq<u8>)
    ensures
        forall|i: int|
            0 <= i < device_list(body).len() ==> {
                let e = #[trigger] device_list(body)[i];
                &&& !e.0.contains(newline())
                &&& !e.0.contains(tab())
                &&& !e.1.contains(newline())
                &&& !e.1.contains(tab())
            },
        device_list(body).len() <= body.len() + 1,
    decreases body.len(),
{
    lemma_find_byte(body, newline());
    match find_byte(body, newline()) {
        Some(k) => {
            let line = body.take(k);
            lemma_entry_fields(line);
            lemma_device_fields(body.skip(k + 1));
            let a = entry_list(line);
            let b = device_list(body.skip(k + 1));
            assert forall|i: int| 0 <= i < device_list(body).len() implies {
                let e = #[trigger] device_list(body)[i];
                &&& !e.0.contains(newline())
                &&& !e.0.contains(tab())
                &&& !e.1.contains(newline())
                &&& !e.1.contains(tab())
            } by {
                if i < a.len() {
                    assert(device_list(body)[i] == a[i]);
                } else {
                    assert(device_list(body)[i] == b[i - a.len()]);
                }
            }
        },
        None => {
            lemma_entry_fields(body);
        },
    }
}

/// The fields of a line's entry hold neither a newline (when the line has
/// none) nor a tab.
proof fn lemma_entry_fields(line: Seq<u8>)
    requires
        find_byte(line, newline()) is None || forall|j: int|
            0 <= j < line.len() ==> line[j] != newline(),
    ensures
        entry_list(line).len() <= 1,
        forall|i: int|
            0 <= i < entry_list(line).len() ==> {
                let e = #[trigger] entry_list(line)[i];
                &&& !e.0.contains(newline())
                &&& !e.0.contains(tab())
                &&& !e.1.contains(newline())
                &&& !e.1.contains(tab())
            },
{
    lemma_find_byte(line, newline());
    lemma_find_byte(line, tab());
    if let Some(t) = find_byte(line, tab()) {
        let rest = line.skip(t + 1);
        lemma_find_byte(rest, tab());
        let e = device_entry(line).unwrap();
        assert(entry_list(line)[0] == e);
        assert forall|j: int| 0 <= j < e.0.len() implies e.0[j] != newline() && e.0[j] != tab() by {
            assert(e.0[j] == line[j]);
        }
        assert forall|j: int| 0 <= j < e.1.len() implies e.1[j] != newline() && e.1[j] != tab() by {
            assert(e.1[j] == rest[j]);
            assert(rest[j] == line[t + 1 + j]);
        }
    }
}

/// Device-list law, one device line: a line made of a serial, a tab, a state
/// and then nothing or further tab-separated fields names exactly that
/// serial and that state, whatever bytes (other than tab and newline) they
/// hold.
pub proof fn lemma_device_line(id: Seq<u8>, st: Seq<u8>, extra: Seq<u8>)
    requires
        !id.contains(0x09u8),
        !id.contains(0x0au8),
        !st.contains(0x09u8),
        !st.contains(0x0au8),
        !extra.contains(0x0au8),
        extra.len() == 0 || extra[0] == 0x09u8,
    ensures
        device_list(id + seq![0x09u8] + st + extra) == seq![(id, st)],
{
    let line = id + seq![0x09u8] + st + extra;
    assert forall|j: int| 0 <= j < line.len() implies line[j] != 0x0au8 by {
        if j < id.len() {
            assert(line[j] == id[j]);
        } else if j == id.len() {
        } else if j < id.len() + 1 + st.len() {
            assert(line[j] == st[j - id.len() - 1]);
        } else {
            assert(line[j] == extra[j - id.len() - 1 - st.len()]);
        }
    }
    lemma_find_byte_unique(line, newline(), line.len() as int);
    assert forall|j: int| 0 <= j < id.len() implies line[j] != 0x09u8 by {
        assert(line[j] == id[j]);
    }
    lemma_find_byte_unique(line, tab(), id.len() as int);
    let rest = line.skip((id.len() + 1) as int);
    assert(rest =~= st + extra);
    assert forall|j: int| 0 <= j < st.len() implies rest[j] != 0x09u8 by {
        assert(rest[j] == st[j]);
    }
    lemma_find_byte_unique(rest, tab(), st.len() as int);
    assert(line.take(id.len() as int) =~= id);
    if extra.len() == 0 {
        assert(rest =~= st);
    } else {
        assert(rest.take(st.len() as int) =~= st);
    }
}

/// Device-list law, line without a tab: it names no device.
pub proof fn lemma_device_no_tab(line: Seq<u8>)
    requires
        !line.contains(0x09u8),
        !line.contains(0x0au8),
    ensures
        device_list(line) == Seq::<(Seq<u8>, Seq<u8>)>::empty(),
{
    lemma_find_byte_unique(line, newline(), line.len() as int);
    lemma_find_byte_unique(line, tab(), line.len() as int);
}

/// Device-list law, lines: the devices of a body are those of its first line
/// followed by those of the lines after the first newline.
pub proof fn lemma_device_lines(line: Seq<u8>, rest: Seq<u8>)
    requires
        !line.contains(0x0au8),
    ensures
        device_list(line + seq![0x0au8] + rest) == device_list(line) + device_list(rest),
{
    let body = line + seq![0x0au8] + rest;
    assert forall|j: int| 0 <= j < line.len() implies body[j] != 0x0au8 by {
        assert(body[j] == line[j]);
    }
    lemma_find_byte_unique(body, newline(), line.len() as int);
    lemma_find_byte_unique(line, newline(), line.len() as int);
    assert(body.take(line.len() as int) =~= line);
    assert(body.skip((line.len() + 1) as int) =~= rest);
}

/// Device-list law, a listed device: a serial, a tab, a state and a newline
/// are read as exactly that one device.
pub proof fn lemma_device_listed(id: Seq<u8>, st: Seq<u8>)
    requires
        !id.contains(0x09u8),
        !id.contains(0x0au8),
        !st.contains(0x09u8),
        !st.contains(0x0au8),
    ensures
        device_list(id + seq![0x09u8] + st + seq![0x0au8]) == seq![(id, st)],
{
    let line = id + seq![0x09u8] + st;
    lemma_device_line(id, st, Seq::empty());
    assert(line + Seq::<u8>::empty() =~= line);
    assert(!line.contains(0x0au8)) by {
        if line.contains(0x0au8) {
            let j = choose|j: int| 0 <= j < line.len() && line[j] == 0x0au8;
            if j < id.len() {
                assert(id[j] == line[j]);
            } else if j > id.len() {
                assert(st[j - id.len() - 1] == line[j]);
            }
        }
    }
    lemma_device_lines(line, Seq::empty());
    lemma_device_no_tab(Seq::empty());
    assert(line + seq![0x0au8] + Seq::<u8>::empty() =~= line + seq![0x0au8]);
    assert(seq![(id, st)] + Seq::<(Seq<u8>, Seq<u8>)>::empty() =~= seq![(id, st)]);
}

/// The UTF-8 bytes of a pair of texts.
pub open spec fn pair_bytes(p: (String, String)) -> (Seq<u8>, Seq<u8>) {
    (encode_utf8(p.0@), encode_utf8(p.1@))
}

/// The text of `s[a..b]`.
fn text_between(s: &[u8], a: usize, b: usize) -> (r: String)
    requires
        a <= b <= s@.len(),
        valid_utf8(s@.subrange(a as int, b as int)),
    ensures
        encode_utf8(r@) == s@.subrange(a as int, b as int),
{
    let piece = &s[a..b];
    decode_text(piece)
}

/// The device named by the line `s[a..e]`, if it has a tab.
fn line_entry(s: &[u8], a: usize, e: usize) -> (r: Option<(String, String)>)
    requires
        a <= e <= s@.len(),
        valid_utf8(s@),
        cut_ok(s@, a as int),
        cut_ok(s@, e as int),
    ensures
        match r {
            Some(p) => device_entry(s@.subrange(a as int, e as int)) == Some(pair_bytes(p)),
            None => device_entry(s@.subrange(a as int, e as int)) is None,
        },
{
    let ghost line = s@.subrange(a as int, e as int);
    match find_in(s, a, e, 0x09) {
        None => None,
        Some(t) => {
            let f = match find_in(s, t + 1, e, 0x09) {
                Some(f) => f,
                None => e,
            };
            proof {
                lemma_ascii_cut(s@, t as int);
                if f < e {
                    lemma_ascii_cut(s@, f as int);
                }
                lemma_valid_between(s@, a as int, t as int);
                lemma_valid_between(s@, t + 1, f as int);
                assert(line.take(t - a) =~= s@.subrange(a as int, t as int));
                assert(line.skip(t - a + 1) =~= s@.subrange(t + 1, e as int));
                let rest = s@.subrange(t + 1, e as int);
                if f < e {
                    assert(rest.take(f - t - 1) =~= s@.subrange(t + 1, f as int));
                } else {
                    assert(rest =~= s@.subrange(t + 1, f as int));
                }
            }
            let id = text_between(s, a, t);
            let ty = text_between(s, t + 1, f);
            Some((id, ty))
        },
    }
}

impl Derives {
    /// The length of the device list, from its four-byte header. Only headers
    /// that are hexadecimal are accepted.
    pub fn body_len(header: [u8; 4]) -> (r: usize)
        requires
            spec_parse_len(header@) is Some,
        ensures
            r == spec_parse_len(header@).unwrap(),
    {
        match parse_len(header) {
            Some(n) => n as usize,
            None => 0,
        }
    }

    /// The devices a device-list body names: `(serial, state)` for every line
    /// with a tab, in order.
    pub fn parse_devices(body: &[u8]) -> (r: Vec<(String, String)>)
        requires
            valid_utf8(body@),
        ensures
            r@.map_values(|p: (String, String)| pair_bytes(p)) == device_list(body@),
    {
        let mut out: Vec<(String, String)> = Vec::new();
        let mut pos: usize = 0;
        let n = body.len();
        proof {
            assert(body@.subrange(0, n as int) =~= body@);
        }
        loop
            invariant
                pos <= n == body@.len(),
                valid_utf8(body@),
                cut_ok(body@, pos as int),
                out@.map_values(|p: (String, String)| pair_bytes(p)) + device_list(
                    body@.subrange(pos as int, n as int),
                ) == device_list(body@),
            decreases n - pos,
        {
            let ghost rest = body@.subrange(pos as int, n as int);
            let ghost old_out = out@;
            match find_in(body, pos, n, 0x0a) {
                None => {
                    proof {
                        assert(cut_ok(body@, n as int));
                    }
                    let e = line_entry(body, pos, n);
                    match e {
                        Some(p) => {
                            out.push(p);
                        },
                        None => {},
                    }
                    proof {
                        assert(device_list(rest) == entry_list(rest));
                        assert(out@.map_values(|p: (String, String)| pair_bytes(p)) =~= old_out.map_values(
                            |p: (String, String)| pair_bytes(p),
                        ) + entry_list(rest));
                    }
                    return out;
                },
                Some(k) => {
                    proof {
                        lemma_ascii_cut(body@, k as int);
                    }
                    let e = line_entry(body, pos, k);
                    match e {
                        Some(p) => {
                            out.push(p);
                        },
                        None => {},
                    }
                    proof {
                        let i = k - pos;
                        assert(rest.take(i) =~= body@.subrange(pos as int, k as int));
                        assert(rest.skip(i + 1) =~= body@.subrange(k + 1, n as int));
                        assert(device_list(rest) == entry_list(rest.take(i)) + device_list(
                            rest.skip(i + 1),
                        ));
                        assert(out@.map_values(|p: (String, String)| pair_bytes(p)) =~= old_out.map_values(
                            |p: (String, String)| pair_bytes(p),
                        ) + entry_list(rest.take(i)));
                    }
                    pos = k + 1;
                },
            }
        }
    }
}

} // verus!
