//! Reading DNS responses captured by the kernel probes: the queried name and the IPv4
//! addresses of its A records.
use vstd::prelude::*;

use crate::text::push_char;

verus! {

/// `String::from_utf8`: the text of the bytes when they are valid UTF-8.
#[verifier::external_body]
fn utf8_text(bytes: &[u8]) -> (r: Option<String>)
    ensures
        r is Some <==> vstd::utf8::valid_utf8(bytes@),
        r matches Some(s) ==> s@ == vstd::utf8::decode_utf8(bytes@),
{
    String::from_utf8(bytes.to_vec()).ok()
}

/// A big-endian 16-bit number.
pub open spec fn be16(hi: u8, lo: u8) -> int {
    hi * 256 + lo
}

/// A big-endian 32-bit number.
pub open spec fn be32(a: u8, b: u8, c: u8, d: u8) -> int {
    a * 16777216 + b * 65536 + c * 256 + d
}

/// The number of answer records a DNS header announces.
pub open spec fn answer_count(wire: Seq<u8>) -> int {
    be16(wire[6], wire[7])
}

/// Labels joined with dots.
pub open spec fn join_dots(labels: Seq<Seq<char>>) -> Seq<char>
    decreases labels.len(),
{
    if labels.len() == 0 {
        Seq::<char>::empty()
    } else if labels.len() == 1 {
        labels[0]
    } else {
        join_dots(labels.drop_last()) + seq!['.'] + labels.last()
    }
}

/// The labels of an uncompressed name starting at `pos`, and the position of its zero
/// terminator. A label longer than 63 bytes, one that runs past the data, or one that is
/// not UTF-8 spoils the name.
pub open spec fn labels_from(wire: Seq<u8>, pos: int) -> Option<(Seq<Seq<char>>, int)>
    decreases wire.len() - pos,
{
    if pos < 0 || pos >= wire.len() {
        None
    } else if wire[pos] == 0 {
        Some((Seq::<Seq<char>>::empty(), pos))
    } else if wire[pos] > 63 {
        None
    } else if pos + 1 + wire[pos] > wire.len() {
        None
    } else {
        let bytes = wire.subrange(pos + 1, pos + 1 + wire[pos]);
        if !vstd::utf8::valid_utf8(bytes) {
            None
        } else {
            match labels_from(wire, pos + 1 + wire[pos]) {
                None => None,
                Some((rest, end)) => Some((seq![vstd::utf8::decode_utf8(bytes)] + rest, end)),
            }
        }
    }
}

/// The position just after an uncompressed name that starts at `pos`.
pub open spec fn skip_name(wire: Seq<u8>, pos: int) -> Option<int>
    decreases wire.len() - pos,
{
    if pos < 0 || pos >= wire.len() {
        None
    } else if wire[pos] == 0 {
        Some(pos + 1)
    } else if wire[pos] > 63 {
        None
    } else if pos + 1 + wire[pos] >= wire.len() {
        None
    } else {
        skip_name(wire, pos + 1 + wire[pos])
    }
}

/// The IPv4 addresses of the A records among the next `count` answer records at `pos`.
/// Reading stops quietly at the end of the data or at a record that does not fit; a
/// spoilt uncompressed owner name spoils the whole response (`None`).
pub open spec fn answers_from(wire: Seq<u8>, pos: int, count: nat) -> Option<Seq<u32>>
    decreases count,
{
    if count == 0 || pos < 0 || pos >= wire.len() {
        Some(Seq::<u32>::empty())
    } else {
        let name_end = if (wire[pos] & 0xC0u8) == 0xC0u8 {
            Some(pos + 2)
        } else {
            skip_name(wire, pos)
        };
        match name_end {
            None => None,
            Some(p) => if p + 10 > wire.len() {
                Some(Seq::<u32>::empty())
            } else {
                let rtype = be16(wire[p], wire[p + 1]);
                let rdlength = be16(wire[p + 8], wire[p + 9]);
                let data = p + 10;
                if data + rdlength > wire.len() {
                    Some(Seq::<u32>::empty())
                } else {
                    match answers_from(wire, data + rdlength, (count - 1) as nat) {
                        None => None,
                        Some(rest) => if rtype == 1 && rdlength == 4 {
                            Some(
                                seq![
                                    be32(
                                        wire[data],
                                        wire[data + 1],
                                        wire[data + 2],
                                        wire[data + 3],
                                    ) as u32,
                                ] + rest,
                            )
                        } else {
                            Some(rest)
                        },
                    }
                }
            },
        }
    }
}

/// The queried name and the A-record addresses of a raw DNS response: `None` for a
/// header shorter than 12 bytes, no answers, a first label of length 0 or above 63, or a
/// spoilt name.
pub open spec fn dns_answers(wire: Seq<u8>) -> Option<(Seq<char>, Seq<u32>)> {
    if wire.len() < 12 {
        None
    } else if answer_count(wire) == 0 {
        None
    } else if wire[12] == 0 || wire[12] > 63 {
        None
    } else {
        match labels_from(wire, 12) {
            None => None,
            Some((labels, end)) => if join_dots(labels).len() == 0 {
                None
            } else {
                match answers_from(wire, end + 5, answer_count(wire) as nat) {
                    None => None,
                    Some(ips) => Some((join_dots(labels), ips)),
                }
            },
        }
    }
}

/// Appends a label to a name being built, with a dot unless it is the first one.
proof fn lemma_join_push(labels: Seq<Seq<char>>, l: Seq<char>)
    ensures
        join_dots(labels.push(l)) == if labels.len() == 0 {
            l
        } else {
            join_dots(labels) + seq!['.'] + l
        },
{
    assert(labels.push(l).drop_last() =~= labels);
}

/// Appends the characters of `s` to `t`.
fn push_all(t: &mut String, s: &String)
    ensures
        final(t)@ == old(t)@ + s@,
{
    t.append(s.as_str());
}

/// Parses the question name of a raw DNS response and collects the IPv4 addresses of
/// its A answers.
pub fn parse_dns_answers(wire: &[u8]) -> (r: Option<(String, Vec<u32>)>)
    requires
        wire@.len() <= isize::MAX,
        wire@.len() == 12 ==> answer_count(wire@) == 0,
    ensures
        match dns_answers(wire@) {
            None => r is None,
            Some((name, ips)) => r matches Some((n, v)) && n@ == name && v@ == ips,
        },
{
    let len = wire.len();
    if len < 12 {
        return None;
    }
    let ancount: u16 = wire[6] as u16 * 256 + wire[7] as u16;
    if ancount == 0 {
        return None;
    }
    let first_label_len = wire[12];
    if first_label_len == 0 || first_label_len > 63 {
        return None;
    }
    let mut pos: usize = 12;
    let mut qname = String::new();
    let mut first = true;
    let ghost mut labels: Seq<Seq<char>> = Seq::empty();
    loop
        invariant
            len == wire@.len(),
            len <= isize::MAX,
            12 <= pos <= len,
            first == (labels.len() == 0),
            qname@ == join_dots(labels),
            labels_from(wire@, 12) == match labels_from(wire@, pos as int) {
                None => None,
                Some((rest, end)) => Some((labels + rest, end)),
            },
        ensures
            pos < len,
            wire@[pos as int] == 0,
            qname@ == join_dots(labels),
            labels_from(wire@, 12) == Some((labels, pos as int)),
        decreases len - pos,
    {
        if pos >= len {
            return None;
        }
        let l = wire[pos];
        if l == 0 {
            assert(labels_from(wire@, pos as int) == Some((Seq::<Seq<char>>::empty(), pos as int)));
            assert(labels + Seq::<Seq<char>>::empty() =~= labels);
            break;
        }
        if l > 63 {
            return None;
        }
        let ghost at = pos as int;
        if !first {
            push_char(&mut qname, '.');
        }
        first = false;
        pos = pos + 1;
        if pos + l as usize > len {
            return None;
        }
        let bytes = vstd::slice::slice_subrange(wire, pos, pos + l as usize);
        let label = match utf8_text(bytes) {
            Some(t) => t,
            None => {
                return None;
            },
        };
        push_all(&mut qname, &label);
        proof {
            lemma_join_push(labels, label@);
            let ghost old_labels = labels;
            labels = labels.push(label@);
            match labels_from(wire@, at + 1 + l) {
                None => {},
                Some((rest, end)) => {
                    assert(seq![label@] + rest =~= seq![label@] + rest);
                    assert(old_labels + (seq![label@] + rest) =~= labels + rest);
                },
            }
        }
        pos = pos + l as usize;
    }
    if qname.as_str().is_empty() {
        return None;
    }
    pos = pos + 1;
    pos = pos + 4;
    let mut ips: Vec<u32> = Vec::new();
    let mut k: u16 = 0;
    let ghost start = pos as int;
    assert(dns_answers(wire@) == match answers_from(wire@, start, ancount as nat) {
        None => None,
        Some(v) => Some((qname@, v)),
    });
    while k < ancount
        invariant_except_break
            answers_from(wire@, start, ancount as nat) == match answers_from(
                wire@,
                pos as int,
                (ancount - k) as nat,
            ) {
                None => None,
                Some(rest) => Some(ips@ + rest),
            },
        invariant
            len == wire@.len(),
            len <= isize::MAX,
            pos <= len + 70000,
            k <= ancount,
            ancount == answer_count(wire@),
            dns_answers(wire@) == match answers_from(wire@, start, ancount as nat) {
                None => None,
                Some(v) => Some((qname@, v)),
            },
        ensures
            answers_from(wire@, start, ancount as nat) == Some(ips@),
        decreases ancount - k,
    {
        let ghost here = pos as int;
        let ghost cnt = (ancount - k) as nat;
        if pos >= len {
            assert(answers_from(wire@, here, cnt) == Some(Seq::<u32>::empty()));
            assert(ips@ + Seq::<u32>::empty() =~= ips@);
            break;
        }
        let b = wire[pos];
        if (b & 0xC0u8) == 0xC0u8 {
            pos = pos + 2;
        } else {
            #[verifier::loop_isolation(false)]
            loop
                invariant
                    here <= pos <= len + 64,
                    skip_name(wire@, here) == skip_name(wire@, pos as int),
                decreases len + 64 - pos,
            {
                if pos >= len {
                    assert(answers_from(wire@, here, cnt) == None::<Seq<u32>>);
                    return None;
                }
                let n = wire[pos];
                if n == 0 {
                    assert(skip_name(wire@, pos as int) == Some(pos + 1));
                    pos = pos + 1;
                    break;
                }
                if n > 63 {
                    assert(answers_from(wire@, here, cnt) == None::<Seq<u32>>);
                    return None;
                }
                pos = pos + 1 + n as usize;
            }
        }
        assert(pos as int == (if (wire@[here] & 0xC0u8) == 0xC0u8 {
            Some(here + 2)
        } else {
            skip_name(wire@, here)
        })->0);
        if pos + 10 > len {
            assert(answers_from(wire@, here, cnt) == Some(Seq::<u32>::empty()));
            assert(ips@ + Seq::<u32>::empty() =~= ips@);
            break;
        }
        let rtype: u16 = wire[pos] as u16 * 256 + wire[pos + 1] as u16;
        pos = pos + 2;
        pos = pos + 2;
        pos = pos + 4;
        let rdlength: usize = wire[pos] as usize * 256 + wire[pos + 1] as usize;
        pos = pos + 2;
        if pos + rdlength > len {
            assert(answers_from(wire@, here, cnt) == Some(Seq::<u32>::empty()));
            assert(ips@ + Seq::<u32>::empty() =~= ips@);
            break;
        }
        if rtype == 1 && rdlength == 4 {
            let ip: u32 = wire[pos] as u32 * 16777216 + wire[pos + 1] as u32 * 65536 + wire[pos
                + 2] as u32 * 256 + wire[pos + 3] as u32;
            let ghost old_ips = ips@;
            ips.push(ip);
            proof {
                match answers_from(wire@, (pos + rdlength) as int, (cnt - 1) as nat) {
                    None => {},
                    Some(rest) => {
                        assert(old_ips + (seq![ip] + rest) =~= ips@ + rest);
                    },
                }
            }
        }
        pos = pos + rdlength;
        k = k + 1;
    }
    assert(ancount - k == 0 ==> answers_from(wire@, pos as int, 0) == Some(Seq::<u32>::empty()));
    Some((qname, ips))
}

} // verus!
