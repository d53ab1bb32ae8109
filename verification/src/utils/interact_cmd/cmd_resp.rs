use vstd::prelude::*;

verus! {

/// The prompt of the device shell, `"/ $ "`, that ends the output of a command.
pub open spec fn prompt() -> Seq<u8> {
    seq![0x2fu8, 0x20u8, 0x24u8, 0x20u8]
}

/// How many more bytes must be read to tell whether a four-byte chunk (not
/// itself the prompt) ends in the first bytes of the prompt: 1 after `"/ $"`,
/// 2 after `"/ "`, 3 after `"/"`, and 0 when the chunk ends in none of them.
pub open spec fn tail_need(key: Seq<u8>) -> nat {
    if key.skip(1) == prompt().take(3) {
        1
    } else if key.skip(2) == prompt().take(2) {
        2
    } else if key[3] == 0x2f {
        3
    } else {
        0
    }
}

/// What the reader does after a four-byte chunk.
#[derive(Debug, Clone, Copy, PartialEq, Eq)]
pub enum ScanStep {
    /// The chunk was the prompt: the output is complete.
    Done,
    /// The chunk may end in the start of the prompt: read this many bytes more.
    ReadTail(usize),
    /// The chunk is output: read the next chunk.
    Continue,
}

/// The step a chunk calls for.
pub open spec fn chunk_step(key: Seq<u8>) -> ScanStep {
    if key == prompt() {
        ScanStep::Done
    } else if tail_need(key) > 0 {
        ScanStep::ReadTail(tail_need(key) as usize)
    } else {
        ScanStep::Continue
    }
}

/// Reading a shell stream chunk by chunk until the prompt: how many bytes
/// are consumed and the output collected before the prompt; `None` when the
/// stream ends first.
pub open spec fn scan(s: Seq<u8>) -> Option<(nat, Seq<u8>)>
    decreases s.len(),
{
    if s.len() < 4 {
        None
    } else {
        let key = s.take(4);
        let rest = s.skip(4);
        if key == prompt() {
            Some((4, Seq::empty()))
        } else {
            let k = tail_need(key);
            if k == 0 {
                match scan(rest) {
                    Some((n, o)) => Some((n + 4, key + o)),
                    None => None,
                }
            } else if rest.len() < k {
                None
            } else {
                let tb = rest.take(k as int);
                if tb == prompt().skip(4 - k) {
                    Some((4 + k, key.take(k as int)))
                } else {
                    match scan(rest.skip(k as int)) {
                        Some((n, o)) => Some((n + 4 + k, key + tb + o)),
                        None => None,
                    }
                }
            }
        }
    }
}

/// The result of scanning from an offset, seen from the start of the stream:
/// the bytes consumed before the offset and the output collected so far added.
pub open spec fn scan_from(r: Option<(nat, Seq<u8>)>, pos: nat, prefix: Seq<u8>) -> Option<
    (nat, Seq<u8>),
> {
    match r {
        Some((n, o)) => Some((n + pos, prefix + o)),
        None => None,
    }
}

/// Prompt law: whenever the reader stops at a prompt, the bytes it consumed
/// are exactly the output it collected followed by the prompt.
pub proof fn lemma_scan_prompt(s: Seq<u8>)
    ensures
        scan(s) matches Some((n, o)) ==> n <= s.len() && s.take(n as int) == o + prompt(),
    decreases s.len(),
{
    if s.len() >= 4 {
        let key = s.take(4);
        let rest = s.skip(4);
        if key == prompt() {
            assert(s.take(4) =~= Seq::<u8>::empty() + prompt());
        } else {
            let k = tail_need(key);
            if k == 0 {
                lemma_scan_prompt(rest);
                if let Some((n, o)) = scan(rest) {
                    assert(s.take((n + 4) as int) =~= key + rest.take(n as int));
                    assert(key + (o + prompt()) =~= (key + o) + prompt());
                }
            } else if rest.len() >= k {
                let tb = rest.take(k as int);
                if tb == prompt().skip(4 - k) {
                    assert(key.skip(k as int) =~= prompt().take(4 - k));
                    assert(s.take((4 + k) as int) =~= key + tb);
                    assert(prompt() =~= prompt().take(4 - k) + prompt().skip(4 - k));
                    assert(key =~= key.take(k as int) + key.skip(k as int));
                    assert(s.take((4 + k) as int) =~= key.take(k as int) + prompt());
                } else {
                    let r2 = rest.skip(k as int);
                    lemma_scan_prompt(r2);
                    if let Some((n, o)) = scan(r2) {
                        assert(s.take((n + 4 + k) as int) =~= key + tb + r2.take(n as int));
                        assert(key + tb + (o + prompt()) =~= (key + tb + o) + prompt());
                    }
                }
            }
        }
    }
}

/// Scanning law, prompt chunk: a stream that starts with the prompt ends at
/// once, with no output.
pub proof fn lemma_scan_at_prompt(r: Seq<u8>)
    ensures
        scan(seq![0x2fu8, 0x20u8, 0x24u8, 0x20u8] + r) == Some((4nat, Seq::<u8>::empty())),
{
    let s = seq![0x2fu8, 0x20u8, 0x24u8, 0x20u8] + r;
    assert(s.take(4) =~= prompt());
}

/// Scanning law, plain chunk: a four-byte chunk that is not the prompt and
/// does not end in `"/"`, `"/ "` or `"/ $"` is output as it is, and reading
/// goes on after it.
pub proof fn lemma_scan_plain_chunk(c: Seq<u8>, r: Seq<u8>)
    requires
        c.len() == 4,
        c != seq![0x2fu8, 0x20u8, 0x24u8, 0x20u8],
        c[3] != 0x2f,
        !(c[2] == 0x2f && c[3] == 0x20),
        !(c[1] == 0x2f && c[2] == 0x20 && c[3] == 0x24),
    ensures
        scan(c + r) == (match scan(r) {
            Some((n, o)) => Some((n + 4, c + o)),
            None => None,
        }),
{
    let s = c + r;
    assert(s.take(4) =~= c);
    assert(s.skip(4) =~= r);
    assert(c != prompt());
    assert(c.skip(1) != prompt().take(3)) by {
        if c.skip(1) == prompt().take(3) {
            assert(c.skip(1)[0] == c[1] && c.skip(1)[1] == c[2] && c.skip(1)[2] == c[3]);
        }
    }
    assert(c.skip(2) != prompt().take(2)) by {
        if c.skip(2) == prompt().take(2) {
            assert(c.skip(2)[0] == c[2] && c.skip(2)[1] == c[3]);
        }
    }
}

/// How many bytes of the prompt's start a chunk ends in, the longest first:
/// 3 for `"/ $"`, 2 for `"/ "`, 1 for `"/"`, 0 for none.
proof fn lemma_chunk_need(c: Seq<u8>)
    requires
        c.len() == 4,
    ensures
        (c[1] == 0x2f && c[2] == 0x20 && c[3] == 0x24) ==> tail_need(c) == 1,
        !(c[1] == 0x2f && c[2] == 0x20 && c[3] == 0x24) && (c[2] == 0x2f && c[3] == 0x20)
            ==> tail_need(c) == 2,
        !(c[1] == 0x2f && c[2] == 0x20 && c[3] == 0x24) && !(c[2] == 0x2f && c[3] == 0x20) && c[3]
            == 0x2f ==> tail_need(c) == 3,
{
    if c[1] == 0x2f && c[2] == 0x20 && c[3] == 0x24 {
        assert(c.skip(1) =~= prompt().take(3));
    } else {
        assert(c.skip(1) != prompt().take(3)) by {
            if c.skip(1) == prompt().take(3) {
                assert(c.skip(1)[0] == c[1] && c.skip(1)[1] == c[2] && c.skip(1)[2] == c[3]);
            }
        }
        if c[2] == 0x2f && c[3] == 0x20 {
            assert(c.skip(2) =~= prompt().take(2));
        } else {
            assert(c.skip(2) != prompt().take(2)) by {
                if c.skip(2) == prompt().take(2) {
                    assert(c.skip(2)[0] == c[2] && c.skip(2)[1] == c[3]);
                }
            }
        }
    }
}

/// Scanning law, chunk ending in the start of the prompt (`"/ $"`, `"/ "` or
/// `"/"`, checked in that order): it waits for the 1, 2 or 3 bytes that would
/// complete the prompt. When they do, the output is the chunk's bytes before
/// the prompt and the read ends there; when they do not, the chunk and those
/// bytes are output and reading goes on after them, ending only where the
/// rest of the stream reaches a prompt.
pub proof fn lemma_scan_prompt_start(c: Seq<u8>, tb: Seq<u8>, r: Seq<u8>)
    requires
        c.len() == 4,
        c != seq![0x2fu8, 0x20u8, 0x24u8, 0x20u8],
    ensures
        (c[1] == 0x2f && c[2] == 0x20 && c[3] == 0x24 && tb.len() == 1) ==> {
            &&& tb == seq![0x20u8] ==> scan(c + tb + r) == Some((5nat, c.take(1)))
            &&& tb != seq![0x20u8] ==> scan(c + tb + r) == (match scan(r) {
                Some((n, o)) => Some((n + 5, c + tb + o)),
                None => None,
            })
        },
        (!(c[1] == 0x2f && c[2] == 0x20 && c[3] == 0x24) && c[2] == 0x2f && c[3] == 0x20
            && tb.len() == 2) ==> {
            &&& tb == seq![0x24u8, 0x20u8] ==> scan(c + tb + r) == Some((6nat, c.take(2)))
            &&& tb != seq![0x24u8, 0x20u8] ==> scan(c + tb + r) == (match scan(r) {
                Some((n, o)) => Some((n + 6, c + tb + o)),
                None => None,
            })
        },
        (!(c[1] == 0x2f && c[2] == 0x20 && c[3] == 0x24) && !(c[2] == 0x2f && c[3] == 0x20) && c[3]
            == 0x2f && tb.len() == 3) ==> {
            &&& tb == seq![0x20u8, 0x24u8, 0x20u8] ==> scan(c + tb + r) == Some((7nat, c.take(3)))
            &&& tb != seq![0x20u8, 0x24u8, 0x20u8] ==> scan(c + tb + r) == (match scan(r) {
                Some((n, o)) => Some((n + 7, c + tb + o)),
                None => None,
            })
        },
{
    lemma_chunk_need(c);
    let s = c + tb + r;
    assert(s.take(4) =~= c);
    assert(c != prompt());
    let k = tb.len() as int;
    assert(s.skip(4).take(k) =~= tb);
    assert(s.skip(4).skip(k) =~= r);
    assert(prompt().skip(3) =~= seq![0x20u8]);
    assert(prompt().skip(2) =~= seq![0x24u8, 0x20u8]);
    assert(prompt().skip(1) =~= seq![0x20u8, 0x24u8, 0x20u8]);
}

/// Scanning law, end of stream: a stream that ends before a whole chunk, or
/// before the bytes a chunk ending in the start of the prompt waits for, has
/// no prompt to reach.
pub proof fn lemma_scan_stream_ends(c: Seq<u8>, r: Seq<u8>)
    requires
        c.len() == 4,
        c != seq![0x2fu8, 0x20u8, 0x24u8, 0x20u8],
    ensures
        r.len() < 4 ==> scan(r) is None,
        (c[1] == 0x2f && c[2] == 0x20 && c[3] == 0x24 && r.len() < 1) ==> scan(c + r) is None,
        (c[2] == 0x2f && c[3] == 0x20 && r.len() < 2) ==> scan(c + r) is None,
        (c[3] == 0x2f && r.len() < 3) ==> scan(c + r) is None,
{
    lemma_chunk_need(c);
    let s = c + r;
    assert(s.take(4) =~= c);
    assert(s.skip(4) =~= r);
    assert(c != prompt());
}

/// Collects the output of an interactive command, up to the shell prompt.
pub struct InteractCmdRespService;

impl InteractCmdRespService {
    /// Handles a four-byte chunk read from the shell: the prompt ends the
    /// output; a chunk that may end in the start of the prompt asks for more
    /// bytes; any other chunk is output.
    pub fn on_chunk(&self, out: &mut Vec<u8>, key: [u8; 4]) -> (r: ScanStep)
        ensures
            r == chunk_step(key@),
            r is Continue ==> final(out)@ == old(out)@ + key@,
            !(r is Continue) ==> final(out)@ == old(out)@,
    {
        if key[0] == 0x2f && key[1] == 0x20 && key[2] == 0x24 && key[3] == 0x20 {
            assert(key@ =~= prompt());
            return ScanStep::Done;
        }
        assert(key@ != prompt()) by {
            if key@ == prompt() {
                assert(key@[0] == 0x2f && key@[1] == 0x20 && key@[2] == 0x24 && key@[3] == 0x20);
            }
        }
        let k: usize = if key[1] == 0x2f && key[2] == 0x20 && key[3] == 0x24 {
            assert(key@.skip(1) =~= prompt().take(3));
            1
        } else if key[2] == 0x2f && key[3] == 0x20 {
            assert(key@.skip(1) != prompt().take(3)) by {
                if key@.skip(1) == prompt().take(3) {
                    assert(key@.skip(1)[0] == key@[1] && key@.skip(1)[1] == key@[2]
                        && key@.skip(1)[2] == key@[3]);
                }
            }
            assert(key@.skip(2) =~= prompt().take(2));
            2
        } else {
            assert(key@.skip(1) != prompt().take(3)) by {
                if key@.skip(1) == prompt().take(3) {
                    assert(key@.skip(1)[0] == key@[1] && key@.skip(1)[1] == key@[2]
                        && key@.skip(1)[2] == key@[3]);
                }
            }
            assert(key@.skip(2) != prompt().take(2)) by {
                if key@.skip(2) == prompt().take(2) {
                    assert(key@.skip(2)[0] == key@[2] && key@.skip(2)[1] == key@[3]);
                }
            }
            if key[3] == 0x2f {
                3
            } else {
                0
            }
        };
        if k > 0 {
            ScanStep::ReadTail(k)
        } else {
            out.push(key[0]);
            out.push(key[1]);
            out.push(key[2]);
            out.push(key[3]);
            assert(final(out)@ =~= old(out)@ + key@);
            ScanStep::Continue
        }
    }

    /// Handles the bytes read after a chunk that may end in the start of the
    /// prompt: when they complete the prompt, the output ends with the chunk's
    /// bytes before it; otherwise the chunk and the bytes are output.
    pub fn on_tail(&self, out: &mut Vec<u8>, key: [u8; 4], tail: &[u8]) -> (done: bool)
        requires
            key@ != prompt(),
            tail_need(key@) > 0,
            tail@.len() == tail_need(key@),
        ensures
            done == (tail@ == prompt().skip(4 - tail_need(key@))),
            done ==> final(out)@ == old(out)@ + key@.take(tail_need(key@) as int),
            !done ==> final(out)@ == old(out)@ + key@ + tail@,
    {
        let k = tail.len();
        let done = if k == 1 {
            tail[0] == 0x20
        } else if k == 2 {
            tail[0] == 0x24 && tail[1] == 0x20
        } else {
            tail[0] == 0x20 && tail[1] == 0x24 && tail[2] == 0x20
        };
        proof {
            let p = prompt().skip(4 - k);
            if done {
                assert(tail@ =~= p);
            } else {
                assert(tail@ != p) by {
                    if tail@ == p {
                        assert(tail@[0] == p[0]);
                        if k >= 2 {
                            assert(tail@[1] == p[1]);
                        }
                        if k >= 3 {
                            assert(tail@[2] == p[2]);
                        }
                    }
                }
            }
        }
        if done {
            let mut i: usize = 0;
            let ghost pre = out@;
            while i < k
                invariant
                    i <= k <= 3,
                    out@ == pre + key@.take(i as int),
                decreases k - i,
            {
                out.push(key[i]);
                i = i + 1;
                assert(key@.take(i as int) =~= key@.take(i - 1).push(key@[i - 1]));
            }
        } else {
            let ghost pre = out@;
            out.push(key[0]);
            out.push(key[1]);
            out.push(key[2]);
            out.push(key[3]);
            let mut i: usize = 0;
            while i < k
                invariant
                    i <= k == tail@.len(),
                    out@ == pre + key@ + tail@.take(i as int),
                decreases k - i,
            {
                out.push(tail[i]);
                i = i + 1;
                assert(tail@.take(i as int) =~= tail@.take(i - 1).push(tail@[i - 1]));
            }
            assert(tail@.take(k as int) =~= tail@);
        }
        done
    }

    /// Reads a whole stream held in memory the way the shell reader reads the
    /// socket: the number of bytes consumed up to and including the prompt,
    /// and the output before it; `None` when the stream ends first.
    pub fn collect(&self, stream: &[u8]) -> (r: Option<(usize, Vec<u8>)>)
        ensures
            match scan(stream@) {
                Some((n, o)) => r matches Some((m, v)) && m == n && v@ == o,
                None => r is None,
            },
    {
        let len = stream.len();
        let mut out: Vec<u8> = Vec::new();
        let mut pos: usize = 0;
        proof {
            assert(stream@.skip(0) =~= stream@);
            assert(scan_from(scan(stream@), 0, out@) =~= scan(stream@)) by {
                if let Some((n, o)) = scan(stream@) {
                    assert(Seq::<u8>::empty() + o =~= o);
                }
            }
        }
        while len - pos >= 4
            invariant
                len == stream@.len(),
                pos <= len,
                scan(stream@) == scan_from(scan(stream@.skip(pos as int)), pos as nat, out@),
            decreases len - pos,
        {
            let ghost s = stream@.skip(pos as int);
            let ghost old_out = out@;
            let key: [u8; 4] = [stream[pos], stream[pos + 1], stream[pos + 2], stream[pos + 3]];
            assert(key@ =~= s.take(4));
            let step = self.on_chunk(&mut out, key);
            match step {
                ScanStep::Done => {
                    return Some((pos + 4, out));
                },
                ScanStep::Continue => {
                    proof {
                        assert(s.skip(4) =~= stream@.skip(pos + 4));
                        if let Some((n, o)) = scan(s.skip(4)) {
                            assert(old_out + (key@ + o) =~= out@ + o);
                        }
                    }
                    pos = pos + 4;
                },
                ScanStep::ReadTail(k) => {
                    if k > len - pos - 4 {
                        return None;
                    }
                    let tail = &stream[pos + 4..pos + 4 + k];
                    assert(tail@ =~= s.skip(4).take(k as int));
                    let done = self.on_tail(&mut out, key, tail);
                    if done {
                        return Some((pos + 4 + k, out));
                    }
                    proof {
                        assert(s.skip(4).skip(k as int) =~= stream@.skip(pos + 4 + k));
                        if let Some((n, o)) = scan(s.skip(4).skip(k as int)) {
                            assert(old_out + (key@ + tail@ + o) =~= out@ + o);
                        }
                    }
                    pos = pos + 4 + k;
                },
            }
        }
        None
    }
}

} // verus!
