//! Encoding of job payloads for the durable queue's payload column: a
//! tagged record whose fields are escaped and `|`-terminated, so that any
//! path round-trips exactly. Decoding refuses anything the encoder cannot
//! have written, which keeps rows written by a different scheme from being
//! executed as the wrong job.

use vstd::prelude::*;

verus! {

use crate::jobs::{JobPayload, PayloadView};

/// Whether `c` must be escaped inside a field.
pub open spec fn needs_escape(c: char) -> bool {
    c == '|' || c == '\\'
}

/// `s` with every field terminator and escape character escaped.
pub open spec fn esc(s: Seq<char>) -> Seq<char>
    decreases s.len(),
{
    if s.len() == 0 {
        Seq::empty()
    } else {
        (if needs_escape(s[0]) {
            seq!['\\', s[0]]
        } else {
            seq![s[0]]
        }) + esc(s.drop_first())
    }
}

/// One encoded field: its escaped content, terminated by `|`.
pub open spec fn enc_field(s: Seq<char>) -> Seq<char> {
    esc(s) + seq!['|']
}

/// The encoding of a payload: a tag character, then each field.
pub open spec fn spec_encode_payload(pv: PayloadView) -> Seq<char> {
    match pv {
        PayloadView::UpdateOrSave { root_path, relative_path } => seq!['u'] + enc_field(root_path)
            + enc_field(relative_path),
        PayloadView::RenameOrMove { root_path, old_relative_path, new_relative_path } => (seq![
            'r',
        ] + enc_field(root_path) + enc_field(old_relative_path) + enc_field(new_relative_path)),
        PayloadView::Delete { relative_path } => seq!['d'] + enc_field(relative_path),
    }
}

/// Reads one field off the front of `t`: the unescaped content and what
/// follows the terminator. An unterminated or ill-escaped text is refused.
pub open spec fn parse_field(t: Seq<char>) -> Option<(Seq<char>, Seq<char>)>
    decreases t.len(),
{
    if t.len() == 0 {
        None
    } else if t[0] == '|' {
        Some((Seq::empty(), t.drop_first()))
    } else if t[0] == '\\' {
        if t.len() >= 2 {
            match parse_field(t.skip(2)) {
                Some((f, r)) => Some((seq![t[1]] + f, r)),
                None => None,
            }
        } else {
            None
        }
    } else {
        match parse_field(t.drop_first()) {
            Some((f, r)) => Some((seq![t[0]] + f, r)),
            None => None,
        }
    }
}

/// The payload a stored text decodes to, if it is a well-formed encoding
/// with nothing after the last field.
pub open spec fn spec_decode_payload(s: Seq<char>) -> Option<PayloadView> {
    if s.len() == 0 {
        None
    } else if s[0] == 'u' {
        match parse_field(s.drop_first()) {
            Some((root_path, r1)) => match parse_field(r1) {
                Some((relative_path, r2)) => if r2.len() == 0 {
                    Some(PayloadView::UpdateOrSave { root_path, relative_path })
                } else {
                    None
                },
                None => None,
            },
            None => None,
        }
    } else if s[0] == 'r' {
        match parse_field(s.drop_first()) {
            Some((root_path, r1)) => match parse_field(r1) {
                Some((old_relative_path, r2)) => match parse_field(r2) {
                    Some((new_relative_path, r3)) => if r3.len() == 0 {
                        Some(
                            PayloadView::RenameOrMove {
                                root_path,
                                old_relative_path,
                                new_relative_path,
                            },
                        )
                    } else {
                        None
                    },
                    None => None,
                },
                None => None,
            },
            None => None,
        }
    } else if s[0] == 'd' {
        match parse_field(s.drop_first()) {
            Some((relative_path, r1)) => if r1.len() == 0 {
                Some(PayloadView::Delete { relative_path })
            } else {
                None
            },
            None => None,
        }
    } else {
        None
    }
}

proof fn lemma_parse_enc_field(s: Seq<char>, rest: Seq<char>)
    ensures
        parse_field(enc_field(s) + rest) == Some((s, rest)),
    decreases s.len(),
{
    let t = enc_field(s) + rest;
    if s.len() == 0 {
        assert(esc(s) =~= Seq::<char>::empty());
        assert(t =~= seq!['|'] + rest);
        assert(t[0] == '|');
        assert(t.drop_first() =~= rest);
    } else {
        lemma_parse_enc_field(s.drop_first(), rest);
        let tail = enc_field(s.drop_first()) + rest;
        if needs_escape(s[0]) {
            assert(t =~= seq!['\\', s[0]] + tail);
            assert(t[0] == '\\');
            assert(t[1] == s[0]);
            assert(t.len() >= 2);
            assert(t.skip(2) =~= tail);
            assert(seq![t[1]] + s.drop_first() =~= s);
        } else {
            assert(t =~= seq![s[0]] + tail);
            assert(t[0] != '|' && t[0] != '\\');
            assert(t.drop_first() =~= tail);
            assert(seq![t[0]] + s.drop_first() =~= s);
        }
    }
}

/// Round trip of the payload encoding: decoding what was encoded yields the
/// payload back, for every payload.
pub proof fn law_payload_codec_round_trip(pv: PayloadView)
    ensures
        spec_decode_payload(spec_encode_payload(pv)) == Some(pv),
{
    let s = spec_encode_payload(pv);
    match pv {
        PayloadView::UpdateOrSave { root_path, relative_path } => {
            assert(s[0] == 'u');
            assert(s.drop_first() =~= enc_field(root_path) + (enc_field(relative_path)
                + Seq::<char>::empty()));
            lemma_parse_enc_field(root_path, enc_field(relative_path) + Seq::<char>::empty());
            lemma_parse_enc_field(relative_path, Seq::<char>::empty());
        },
        PayloadView::RenameOrMove { root_path, old_relative_path, new_relative_path } => {
            assert(s[0] == 'r');
            assert(s.drop_first() =~= enc_field(root_path) + (enc_field(old_relative_path) + (
            enc_field(new_relative_path) + Seq::<char>::empty())));
            lemma_parse_enc_field(
                root_path,
                enc_field(old_relative_path) + (enc_field(new_relative_path)
                    + Seq::<char>::empty()),
            );
            lemma_parse_enc_field(
                old_relative_path,
                enc_field(new_relative_path) + Seq::<char>::empty(),
            );
            lemma_parse_enc_field(new_relative_path, Seq::<char>::empty());
        },
        PayloadView::Delete { relative_path } => {
            assert(s[0] == 'd');
            assert(s.drop_first() =~= enc_field(relative_path) + Seq::<char>::empty());
            lemma_parse_enc_field(relative_path, Seq::<char>::empty());
        },
    }
}

proof fn lemma_esc_concat(a: Seq<char>, b: Seq<char>)
    ensures
        esc(a + b) == esc(a) + esc(b),
    decreases a.len(),
{
    if a.len() == 0 {
        assert(a + b =~= b);
        assert(esc(a) + esc(b) =~= esc(b));
    } else {
        lemma_esc_concat(a.drop_first(), b);
        assert((a + b).drop_first() =~= a.drop_first() + b);
        assert((a + b)[0] == a[0]);
        if needs_escape(a[0]) {
            assert(seq!['\\', a[0]] + (esc(a.drop_first()) + esc(b)) =~= (seq!['\\', a[0]]
                + esc(a.drop_first())) + esc(b));
        } else {
            assert(seq![a[0]] + (esc(a.drop_first()) + esc(b)) =~= (seq![a[0]] + esc(
                a.drop_first(),
            )) + esc(b));
        }
    }
}

proof fn lemma_esc_plain(a: Seq<char>)
    requires
        forall|j: int| 0 <= j < a.len() ==> !needs_escape(a[j]),
    ensures
        esc(a) == a,
    decreases a.len(),
{
    if a.len() > 0 {
        assert forall|j: int| 0 <= j < a.drop_first().len() implies !needs_escape(
            a.drop_first()[j],
        ) by {
            assert(a.drop_first()[j] == a[j + 1]);
        }
        lemma_esc_plain(a.drop_first());
        assert(seq![a[0]] + a.drop_first() =~= a);
    }
}

fn append_field(out: &mut String, s: &String)
    ensures
        final(out)@ == old(out)@ + enc_field(s@),
{
    proof {
        reveal_strlit("\\");
        reveal_strlit("|");
        reveal_strlit("\\\\");
        reveal_strlit("\\|");
    }
    let ghost pre = out@;
    let text = s.as_str();
    let n = text.unicode_len();
    let mut i: usize = 0;
    let mut start: usize = 0;
    while i < n
        invariant
            pre == old(out)@,
            n == s@.len(),
            text@ == s@,
            start <= i <= n,
            out@ == pre + esc(s@.take(start as int)),
            forall|j: int| start <= j < i ==> !needs_escape(s@[j]),
        decreases n - i,
    {
        let c = text.get_char(i);
        if c == '|' || c == '\\' {
            let ghost between = s@.subrange(start as int, i as int);
            out.append(text.substring_char(start, i));
            if c == '|' {
                out.append("\\|");
            } else {
                out.append("\\\\");
            }
            proof {
                reveal_strlit("\\");
                reveal_strlit("|");
                reveal_strlit("\\\\");
                reveal_strlit("\\|");
                lemma_esc_plain(between);
                lemma_esc_concat(s@.take(start as int), between);
                assert(s@.take(start as int) + between =~= s@.take(i as int));
                lemma_esc_concat(s@.take(i as int), seq![c]);
                assert(s@.take(i as int) + seq![c] =~= s@.take(i as int + 1));
                assert(seq![c].drop_first() =~= Seq::<char>::empty());
                assert(esc(seq![c]) =~= seq!['\\', c] + esc(Seq::<char>::empty()));
                assert(seq!['\\', c] + Seq::<char>::empty() =~= seq!['\\', c]);
                if c == '|' {
                    assert("\\|"@ =~= seq!['\\', c]);
                } else {
                    assert("\\\\"@ =~= seq!['\\', c]);
                }
                assert(out@ =~= pre + esc(s@.take(i as int + 1)));
            }
            start = i + 1;
        }
        i = i + 1;
    }
    let ghost between = s@.subrange(start as int, n as int);
    out.append(text.substring_char(start, n));
    out.append("|");
    proof {
        reveal_strlit("|");
        lemma_esc_plain(between);
        lemma_esc_concat(s@.take(start as int), between);
        assert(s@.take(start as int) + between =~= s@);
        assert("|"@ =~= seq!['|']);
        assert(out@ =~= pre + (esc(s@) + seq!['|']));
    }
}

/// Encodes a payload for the durable queue's payload column.
pub fn encode_payload(p: &JobPayload) -> (r: String)
    ensures
        r@ == spec_encode_payload(p@),
{
    proof {
        reveal_strlit("u");
        reveal_strlit("r");
        reveal_strlit("d");
    }
    let mut out = String::new();
    match p {
        JobPayload::UpdateOrSave { root_path, relative_path } => {
            out.append("u");
            proof {
                assert(out@ =~= seq!['u']);
            }
            append_field(&mut out, root_path);
            append_field(&mut out, relative_path);
            proof {
                assert(out@ =~= spec_encode_payload(p@));
            }
        },
        JobPayload::RenameOrMove { root_path, old_relative_path, new_relative_path } => {
            out.append("r");
            proof {
                assert(out@ =~= seq!['r']);
            }
            append_field(&mut out, root_path);
            append_field(&mut out, old_relative_path);
            append_field(&mut out, new_relative_path);
            proof {
                assert(out@ =~= spec_encode_payload(p@));
            }
        },
        JobPayload::Delete { relative_path } => {
            out.append("d");
            proof {
                assert(out@ =~= seq!['d']);
            }
            append_field(&mut out, relative_path);
            proof {
                assert(out@ =~= spec_encode_payload(p@));
            }
        },
    }
    out
}

fn read_field(text: &str, pos: usize) -> (r: Option<(String, usize)>)
    requires
        pos <= text@.len(),
    ensures
        match r {
            Some((f, newpos)) => {
                &&& newpos <= text@.len()
                &&& parse_field(text@.skip(pos as int)) == Some(
                    (f@, text@.skip(newpos as int)),
                )
            },
            None => parse_field(text@.skip(pos as int)) is None,
        },
{
    let ghost whole = text@.skip(pos as int);
    let n = text.unicode_len();
    let mut out = String::new();
    let mut i: usize = pos;
    let mut start: usize = pos;
    while i < n
        invariant
            whole == text@.skip(pos as int),
            n == text@.len(),
            pos <= start <= i <= n,
            forall|j: int| start <= j < i ==> !needs_escape(text@[j]),
            ({
                let here = out@ + text@.subrange(start as int, i as int);
                match parse_field(text@.skip(i as int)) {
                    Some((f, r)) => parse_field(whole) == Some((here + f, r)),
                    None => parse_field(whole) is None,
                }
            }),
        decreases n - i,
    {
        let ghost t = text@.skip(i as int);
        proof {
            assert(t[0] == text@[i as int]);
            assert(t.drop_first() =~= text@.skip(i as int + 1));
        }
        let c = text.get_char(i);
        if c == '|' {
            out.append(text.substring_char(start, i));
            proof {
                let here = out@;
                assert(here =~= here + Seq::<char>::empty());
                assert(parse_field(whole) == Some((here, text@.skip(i as int + 1))));
            }
            return Some((out, i + 1));
        } else if c == '\\' {
            if i + 1 >= n {
                proof {
                    assert(t.len() < 2);
                }
                return None;
            }
            let ghost out_pre = out@;
            out.append(text.substring_char(start, i));
            out.append(text.substring_char(i + 1, i + 2));
            proof {
                assert(t.skip(2) =~= text@.skip(i as int + 2));
                assert(text@.subrange(i as int + 1, i as int + 2) =~= seq![t[1]]);
                assert(out@ =~= (out_pre + text@.subrange(start as int, i as int)) + seq![
                    t[1],
                ]);
                if let Some((f, r)) = parse_field(text@.skip(i as int + 2)) {
                    assert(out@ + text@.subrange(i as int + 2, i as int + 2) =~= out@);
                    assert((out_pre + text@.subrange(start as int, i as int)) + (seq![t[1]] + f)
                        =~= out@ + f);
                }
            }
            start = i + 2;
            i = i + 2;
        } else {
            proof {
                if let Some((f, r)) = parse_field(text@.skip(i as int + 1)) {
                    assert(out@ + text@.subrange(start as int, i as int + 1) + f =~= out@
                        + text@.subrange(start as int, i as int) + (seq![t[0]] + f));
                }
            }
            i = i + 1;
        }
    }
    proof {
        assert(text@.skip(n as int) =~= Seq::<char>::empty());
    }
    None
}

/// Decodes a stored payload column; anything that is not a complete,
/// well-formed encoding comes back as nothing.
pub fn decode_payload(text: &str) -> (r: Option<JobPayload>)
    ensures
        match r {
            Some(p) => spec_decode_payload(text@) == Some(p@),
            None => spec_decode_payload(text@) is None,
        },
{
    let n = text.unicode_len();
    if n == 0 {
        return None;
    }
    let tag = text.get_char(0);
    proof {
        assert(text@.skip(1) =~= text@.drop_first());
    }
    if tag == 'u' {
        let (root_path, p1) = match read_field(text, 1) {
            Some(x) => x,
            None => {
                return None;
            },
        };
        let (relative_path, p2) = match read_field(text, p1) {
            Some(x) => x,
            None => {
                return None;
            },
        };
        if p2 < n {
            return None;
        }
        proof {
            assert(text@.skip(p2 as int).len() == 0);
        }
        Some(JobPayload::UpdateOrSave { root_path, relative_path })
    } else if tag == 'r' {
        let (root_path, p1) = match read_field(text, 1) {
            Some(x) => x,
            None => {
                return None;
            },
        };
        let (old_relative_path, p2) = match read_field(text, p1) {
            Some(x) => x,
            None => {
                return None;
            },
        };
        let (new_relative_path, p3) = match read_field(text, p2) {
            Some(x) => x,
            None => {
                return None;
            },
        };
        if p3 < n {
            return None;
        }
        proof {
            assert(text@.skip(p3 as int).len() == 0);
        }
        Some(JobPayload::RenameOrMove { root_path, old_relative_path, new_relative_path })
    } else if tag == 'd' {
        let (relative_path, p1) = match read_field(text, 1) {
            Some(x) => x,
            None => {
                return None;
            },
        };
        if p1 < n {
            return None;
        }
        proof {
            assert(text@.skip(p1 as int).len() == 0);
        }
        Some(JobPayload::Delete { relative_path })
    } else {
        None
    }
}

} // verus!
