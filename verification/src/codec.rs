use vstd::prelude::*;

use crate::strutil::{dec_rep, dec_val, digit_val, is_digit, lemma_dec_prefix_bound,
    lemma_dec_rep_val, push_char, u64_to_string};
use crate::types::{
    aview, mview, Attachment, AttachmentView, MessageView, ReceivedMessage,
};

verus! {

/// A number on the wire: its decimal rendering closed by a colon.
pub open spec fn enc_num(n: nat) -> Seq<char> {
    dec_rep(n) + seq![':']
}

/// A text on the wire: its length, then exactly that many characters.
pub open spec fn enc_txt(s: Seq<char>) -> Seq<char> {
    enc_num(s.len()) + s
}

pub open spec fn enc_bool(b: bool) -> Seq<char> {
    if b {
        seq!['1']
    } else {
        seq!['0']
    }
}

/// An optional text: a marker for absence, or a marker and the text.
pub open spec fn enc_opt(o: Option<Seq<char>>) -> Seq<char> {
    match o {
        None => seq!['N'],
        Some(s) => seq!['S'] + enc_txt(s),
    }
}

pub open spec fn enc_att(a: AttachmentView) -> Seq<char> {
    enc_txt(a.id) + enc_txt(a.filename) + enc_txt(a.mime_type) + enc_num(a.size as nat) + enc_txt(
        a.data,
    ) + enc_opt(a.thumbnail)
}

pub open spec fn enc_atts(s: Seq<AttachmentView>) -> Seq<char>
    decreases s.len(),
{
    if s.len() == 0 {
        Seq::<char>::empty()
    } else {
        enc_att(s[0]) + enc_atts(s.drop_first())
    }
}

/// A whole message on the wire: every field in a fixed order, the
/// attachments counted and then listed.
pub open spec fn enc_message(m: MessageView) -> Seq<char> {
    enc_txt(m.from) + enc_txt(m.from_name) + enc_txt(m.message) + enc_txt(m.message_type)
        + enc_txt(m.timestamp) + enc_bool(m.is_self) + enc_num(m.attachments.len()) + enc_atts(
        m.attachments,
    )
}

fn put_num(out: &mut String, n: u64)
    ensures
        final(out)@ == old(out)@ + enc_num(n as nat),
{
    let digits = u64_to_string(n);
    out.append(digits.as_str());
    push_char(out, ':');
    proof {
        assert(out@ =~= old(out)@ + enc_num(n as nat));
    }
}

fn put_txt(out: &mut String, s: &str)
    ensures
        final(out)@ == old(out)@ + enc_txt(s@),
{
    let n = s.unicode_len();
    put_num(out, n as u64);
    out.append(s);
    proof {
        assert(out@ =~= old(out)@ + enc_txt(s@));
    }
}

fn put_bool(out: &mut String, b: bool)
    ensures
        final(out)@ == old(out)@ + enc_bool(b),
{
    if b {
        push_char(out, '1');
    } else {
        push_char(out, '0');
    }
    proof {
        assert(out@ =~= old(out)@ + enc_bool(b));
    }
}

fn put_opt(out: &mut String, o: &Option<String>)
    ensures
        final(out)@ == old(out)@ + enc_opt(
            match *o {
                Some(s) => Some(s@),
                None => None,
            },
        ),
{
    match o {
        None => {
            push_char(out, 'N');
            proof {
                assert(out@ =~= old(out)@ + enc_opt(None));
            }
        },
        Some(s) => {
            push_char(out, 'S');
            put_txt(out, s.as_str());
            proof {
                assert(out@ =~= old(out)@ + enc_opt(Some(s@)));
            }
        },
    }
}

fn put_att(out: &mut String, a: &Attachment)
    ensures
        final(out)@ == old(out)@ + enc_att(aview(*a)),
{
    put_txt(out, a.id.as_str());
    put_txt(out, a.filename.as_str());
    put_txt(out, a.mime_type.as_str());
    put_num(out, a.size);
    put_txt(out, a.data.as_str());
    put_opt(out, &a.thumbnail);
    proof {
        assert(out@ =~= old(out)@ + enc_att(aview(*a)));
    }
}

/// Renders a message in the store's own wire form: a fixed field order,
/// every text length-prefixed, so that any message — any characters in
/// any field, any attachments — reads back unambiguously.
pub fn encode_message(m: &ReceivedMessage) -> (r: String)
    ensures
        r@ == enc_message(mview(*m)),
{
    let mut out = String::new();
    put_txt(&mut out, m.from.as_str());
    put_txt(&mut out, m.from_name.as_str());
    put_txt(&mut out, m.message.as_str());
    put_txt(&mut out, m.message_type.as_str());
    put_txt(&mut out, m.timestamp.as_str());
    put_bool(&mut out, m.is_self);
    let count = m.attachments.len();
    put_num(&mut out, count as u64);
    let ghost avs = m.attachments@.map_values(|a: Attachment| aview(a));
    let ghost head = out@;
    let mut i: usize = 0;
    proof {
        assert(avs.skip(0) =~= avs);
        assert(out@ =~= head + enc_atts(avs.skip(0)).subrange(
            0,
            enc_atts(avs.skip(0)).len() as int,
        ).subrange(0, 0));
        assert(out@ =~= head);
    }
    while i < count
        invariant
            count == m.attachments@.len(),
            i <= count,
            avs == m.attachments@.map_values(|a: Attachment| aview(a)),
            out@ + enc_atts(avs.skip(i as int)) == head + enc_atts(avs),
        decreases count - i,
    {
        let ghost before = out@;
        put_att(&mut out, &m.attachments[i]);
        proof {
            let rest = avs.skip(i as int);
            assert(rest.len() > 0);
            assert(rest[0] == aview(m.attachments@[i as int]));
            assert(enc_atts(rest) == enc_att(rest[0]) + enc_atts(rest.drop_first()));
            assert(rest.drop_first() =~= avs.skip(i + 1));
            assert(out@ =~= before + enc_att(rest[0]));
            assert(out@ + enc_atts(avs.skip(i + 1)) =~= before + enc_atts(rest));
            assert(before + enc_atts(rest) =~= head + enc_atts(avs));
        }
        i += 1;
    }
    proof {
        assert(avs.skip(count as int) =~= Seq::<AttachmentView>::empty());
        assert(enc_atts(avs.skip(count as int)) =~= Seq::<char>::empty());
        assert(out@ =~= out@ + enc_atts(avs.skip(count as int)));
        assert(out@ =~= enc_message(mview(*m)));
    }
    out
}

/// `s` stands in `buf` beginning at position `pos`.
pub open spec fn at_pos(buf: Seq<char>, pos: int, s: Seq<char>) -> bool {
    0 <= pos && pos + s.len() <= buf.len() && buf.subrange(pos, pos + s.len() as int) == s
}

/// A concatenation stands at a position exactly when its parts stand
/// there one after the other.
pub proof fn lemma_at_concat(buf: Seq<char>, pos: int, a: Seq<char>, b: Seq<char>)
    requires
        at_pos(buf, pos, a + b),
    ensures
        at_pos(buf, pos, a),
        at_pos(buf, pos + a.len(), b),
{
    let ab = a + b;
    assert(buf.subrange(pos, pos + a.len() as int) =~= ab.subrange(0, a.len() as int));
    assert(ab.subrange(0, a.len() as int) =~= a);
    assert(buf.subrange(pos + a.len(), pos + ab.len() as int) =~= ab.subrange(
        a.len() as int,
        ab.len() as int,
    ));
    assert(ab.subrange(a.len() as int, ab.len() as int) =~= b);
}

fn char_digit(c: char) -> (r: Option<u64>)
    ensures
        match r {
            Some(d) => is_digit(c) && d == digit_val(c) && d < 10,
            None => !is_digit(c),
        },
{
    if c == '0' {
        Some(0)
    } else if c == '1' {
        Some(1)
    } else if c == '2' {
        Some(2)
    } else if c == '3' {
        Some(3)
    } else if c == '4' {
        Some(4)
    } else if c == '5' {
        Some(5)
    } else if c == '6' {
        Some(6)
    } else if c == '7' {
        Some(7)
    } else if c == '8' {
        Some(8)
    } else if c == '9' {
        Some(9)
    } else {
        None
    }
}

/// Reads a number closed by a colon. Whenever some number's wire form
/// stands at `pos`, the read returns exactly that number and stops just
/// past its colon.
fn dec_num(buf: &Vec<char>, pos: usize) -> (r: Option<(u64, usize)>)
    requires
        pos <= buf@.len(),
    ensures
        forall|n: u64|
            at_pos(buf@, pos as int, enc_num(n as nat)) ==> (r matches Some(p) && p.0 == n && p.1
                == pos + enc_num(n as nat).len()),
        r matches Some(p) ==> pos < p.1 <= buf@.len(),
{
    let len = buf.len();
    let mut i: usize = pos;
    let mut acc: u64 = 0;
    loop
        invariant
            pos <= i <= len,
            len == buf@.len(),
            forall|k: int| pos <= k < i ==> is_digit(buf@[k]),
            acc == dec_val(buf@.subrange(pos as int, i as int)),
        ensures
            pos <= i <= len,
            forall|k: int| pos <= k < i ==> is_digit(buf@[k]),
            acc == dec_val(buf@.subrange(pos as int, i as int)),
            i == len || !is_digit(buf@[i as int]),
        decreases len - i,
    {
        if i == len {
            break;
        }
        let d = match char_digit(buf[i]) {
            Some(d) => d,
            None => {
                break;
            },
        };
        if acc > (u64::MAX - d) / 10 {
            // The digits read so far already outgrow any number the
            // wire form could carry here.
            proof {
                assert forall|n: u64|
                    !at_pos(buf@, pos as int, enc_num(n as nat)) by {
                    if at_pos(buf@, pos as int, enc_num(n as nat)) {
                        let rep = dec_rep(n as nat);
                        let ll = rep.len() as int;
                        lemma_dec_rep_val(n as nat);
                        lemma_at_concat(buf@, pos as int, rep, seq![':']);
                        assert(buf@.subrange(pos + ll, pos + ll + 1) == seq![':']);
                        assert(buf@[pos + ll] == buf@.subrange(pos + ll, pos + ll + 1)[0]);
                        assert(buf@[pos + ll] == ':');
                        assert(!is_digit(buf@[pos + ll]));
                        assert forall|k: int| 0 <= k < ll implies buf@[pos + k] == rep[k] by {
                            assert(buf@.subrange(pos as int, pos + ll)[k] == rep[k]);
                        }
                        assert(i - pos < ll) by {
                            if i - pos >= ll {
                                assert(is_digit(buf@[pos + ll]));
                            }
                        }
                        assert(buf@.subrange(pos as int, i as int) =~= rep.subrange(
                            0,
                            i - pos,
                        ));
                        assert(buf@.subrange(pos as int, i + 1) =~= rep.subrange(0, i + 1 - pos));
                        assert(buf@.subrange(pos as int, i + 1).drop_last() =~= buf@.subrange(
                            pos as int,
                            i as int,
                        ));
                        assert(dec_val(buf@.subrange(pos as int, i + 1)) == acc * 10 + d);
                        lemma_dec_prefix_bound(n as nat, i + 1 - pos);
                        assert(acc * 10 + d <= n);
                        assert(acc <= (u64::MAX - d) / 10) by (nonlinear_arith)
                            requires
                                acc * 10 + d <= u64::MAX,
                                d < 10,
                        ;
                    }
                }
            }
            return None;
        }
        proof {
            assert(acc * 10 + d <= u64::MAX) by (nonlinear_arith)
                requires
                    acc <= (u64::MAX - d) / 10,
                    d < 10,
            ;
            assert(buf@.subrange(pos as int, i + 1).drop_last() =~= buf@.subrange(
                pos as int,
                i as int,
            ));
            assert(buf@.subrange(pos as int, i + 1).last() == buf@[i as int]);
        }
        acc = acc * 10 + d;
        i += 1;
    }
    // Here the run of digits has ended: a colon must follow.
    proof {
        assert forall|n: u64|
            at_pos(buf@, pos as int, enc_num(n as nat)) implies i - pos == dec_rep(
            n as nat,
        ).len() && acc == n && i < len && buf@[i as int] == ':' by {
            let rep = dec_rep(n as nat);
            let ll = rep.len() as int;
            lemma_dec_rep_val(n as nat);
            lemma_at_concat(buf@, pos as int, rep, seq![':']);
            assert(buf@.subrange(pos + ll, pos + ll + 1) == seq![':']);
            assert(buf@[pos + ll] == buf@.subrange(pos + ll, pos + ll + 1)[0]);
            assert(buf@[pos + ll] == ':');
            assert(!is_digit(buf@[pos + ll]));
            assert forall|k: int| 0 <= k < ll implies buf@[pos + k] == rep[k] by {
                assert(buf@.subrange(pos as int, pos + ll)[k] == rep[k]);
            }
            assert(i - pos <= ll) by {
                if i - pos > ll {
                    assert(is_digit(buf@[pos + ll]));
                }
            }
            assert(i - pos >= ll) by {
                if i - pos < ll {
                    assert(is_digit(rep[i - pos]));
                    assert(buf@[i as int] == rep[i - pos]);
                    assert(pos + ll + 1 <= len);
                    assert(i < len);
                }
            }
            assert(buf@.subrange(pos as int, i as int) =~= rep);
            assert(acc == n);
            assert(pos + ll + 1 <= len);
        }
    }
    if i == len {
        return None;
    }
    if buf[i] == ':' {
        Some((acc, i + 1))
    } else {
        None
    }
}

/// Reads a length-prefixed text. Whenever some text's wire form stands
/// at `pos`, the read returns exactly that text and stops just past it.
fn dec_txt(buf: &Vec<char>, pos: usize) -> (r: Option<(String, usize)>)
    requires
        pos <= buf@.len(),
    ensures
        forall|s: Seq<char>|
            at_pos(buf@, pos as int, enc_txt(s)) ==> (r matches Some(p) && p.0@ == s && p.1 == pos
                + enc_txt(s).len()),
        r matches Some(p) ==> pos < p.1 <= buf@.len(),
{
    let blen = buf.len();
    let (n, p1) = match dec_num(buf, pos) {
        Some(p) => p,
        None => {
            proof {
                assert forall|s: Seq<char>|
                    !at_pos(buf@, pos as int, enc_txt(s)) by {
                    if at_pos(buf@, pos as int, enc_txt(s)) {
                        lemma_at_concat(buf@, pos as int, enc_num(s.len()), s);
                        assert((s.len() as u64) as nat == s.len());
                        assert(at_pos(buf@, pos as int, enc_num((s.len() as u64) as nat)));
                    }
                }
            }
            return None;
        },
    };
    if n > (blen - p1) as u64 {
        proof {
            assert forall|s: Seq<char>|
                !at_pos(buf@, pos as int, enc_txt(s)) by {
                if at_pos(buf@, pos as int, enc_txt(s)) {
                    lemma_at_concat(buf@, pos as int, enc_num(s.len()), s);
                    assert((s.len() as u64) as nat == s.len());
                    assert(at_pos(buf@, pos as int, enc_num((s.len() as u64) as nat)));
                    assert(n == s.len());
                }
            }
        }
        return None;
    }
    let take = n as usize;
    let mut text = String::new();
    let mut i: usize = 0;
    while i < take
        invariant
            blen == buf@.len(),
            p1 + take <= blen,
            i <= take,
            text@ == buf@.subrange(p1 as int, p1 + i),
        decreases take - i,
    {
        push_char(&mut text, buf[p1 + i]);
        i += 1;
        proof {
            assert(text@ =~= buf@.subrange(p1 as int, p1 + i));
        }
    }
    proof {
        assert forall|s: Seq<char>|
            at_pos(buf@, pos as int, enc_txt(s)) implies text@ == s && p1 + take == pos + enc_txt(
            s,
        ).len() by {
            lemma_at_concat(buf@, pos as int, enc_num(s.len()), s);
            assert((s.len() as u64) as nat == s.len());
            assert(at_pos(buf@, pos as int, enc_num((s.len() as u64) as nat)));
            assert(n == s.len() && p1 == pos + enc_num(s.len()).len());
            assert(text@ =~= s);
        }
    }
    Some((text, p1 + take))
}

/// Reads one wire boolean.
fn dec_bool(buf: &Vec<char>, pos: usize) -> (r: Option<(bool, usize)>)
    requires
        pos <= buf@.len(),
    ensures
        forall|b: bool|
            at_pos(buf@, pos as int, enc_bool(b)) ==> (r matches Some(p) && p.0 == b && p.1 == pos
                + 1),
        r matches Some(p) ==> pos < p.1 <= buf@.len(),
{
    if pos == buf.len() {
        return None;
    }
    let c = buf[pos];
    proof {
        assert forall|b: bool|
            at_pos(buf@, pos as int, enc_bool(b)) implies buf@[pos as int] == enc_bool(b)[0] by {
            assert(buf@.subrange(pos as int, pos + 1)[0] == enc_bool(b)[0]);
        }
    }
    if c == '1' {
        Some((true, pos + 1))
    } else if c == '0' {
        Some((false, pos + 1))
    } else {
        None
    }
}

/// Reads an optional text: a marker for absence, or a marker and the
/// text.
fn dec_opt(buf: &Vec<char>, pos: usize) -> (r: Option<(Option<String>, usize)>)
    requires
        pos <= buf@.len(),
    ensures
        forall|o: Option<Seq<char>>|
            at_pos(buf@, pos as int, enc_opt(o)) ==> (r matches Some(p) && p.1 == pos + enc_opt(
                o,
            ).len() && (match (p.0, o) {
                (Some(t), Some(s)) => t@ == s,
                (None, None) => true,
                _ => false,
            })),
        r matches Some(p) ==> pos < p.1 <= buf@.len(),
{
    if pos == buf.len() {
        return None;
    }
    let c = buf[pos];
    proof {
        assert forall|o: Option<Seq<char>>|
            at_pos(buf@, pos as int, enc_opt(o)) implies buf@[pos as int] == enc_opt(o)[0] by {
            assert(buf@.subrange(pos as int, pos + enc_opt(o).len() as int)[0] == enc_opt(o)[0]);
        }
    }
    if c == 'N' {
        proof {
            assert forall|o: Option<Seq<char>>|
                at_pos(buf@, pos as int, enc_opt(o)) implies o is None by {
                if o is Some {
                    assert(enc_opt(o)[0] == 'S');
                }
            }
        }
        Some((None, pos + 1))
    } else if c == 'S' {
        let (t, p2) = match dec_txt(buf, pos + 1) {
            Some(p) => p,
            None => {
                proof {
                    assert forall|o: Option<Seq<char>>|
                        !at_pos(buf@, pos as int, enc_opt(o)) by {
                        if at_pos(buf@, pos as int, enc_opt(o)) {
                            match o {
                                Some(s) => {
                                    lemma_at_concat(buf@, pos as int, seq!['S'], enc_txt(s));
                                },
                                None => {
                                    assert(enc_opt(o)[0] == 'N');
                                },
                            }
                        }
                    }
                }
                return None;
            },
        };
        proof {
            assert forall|o: Option<Seq<char>>|
                at_pos(buf@, pos as int, enc_opt(o)) implies (o matches Some(s) && t@ == s && p2
                == pos + enc_opt(o).len()) by {
                match o {
                    Some(s) => {
                        lemma_at_concat(buf@, pos as int, seq!['S'], enc_txt(s));
                    },
                    None => {
                        assert(enc_opt(o)[0] == 'N');
                    },
                }
            }
        }
        Some((Some(t), p2))
    } else {
        None
    }
}

/// Reads one attachment: its fields in the fixed order.
fn dec_att(buf: &Vec<char>, pos: usize) -> (r: Option<(Attachment, usize)>)
    requires
        pos <= buf@.len(),
    ensures
        forall|a: AttachmentView|
            at_pos(buf@, pos as int, enc_att(a)) ==> (r matches Some(p) && aview(p.0) == a && p.1
                == pos + enc_att(a).len()),
        r matches Some(p) ==> pos < p.1 <= buf@.len(),
{
    let ghost b = buf@;
    let (id, p1) = match dec_txt(buf, pos) {
        Some(p) => p,
        None => {
            proof {
                assert forall|a: AttachmentView| !at_pos(b, pos as int, enc_att(a)) by {
                    if at_pos(b, pos as int, enc_att(a)) {
                        lemma_att_parts(b, pos as int, a);
                    }
                }
            }
            return None;
        },
    };
    let (filename, p2) = match dec_txt(buf, p1) {
        Some(p) => p,
        None => {
            proof {
                assert forall|a: AttachmentView| !at_pos(b, pos as int, enc_att(a)) by {
                    if at_pos(b, pos as int, enc_att(a)) {
                        lemma_att_parts(b, pos as int, a);
                    }
                }
            }
            return None;
        },
    };
    let (mime_type, p3) = match dec_txt(buf, p2) {
        Some(p) => p,
        None => {
            proof {
                assert forall|a: AttachmentView| !at_pos(b, pos as int, enc_att(a)) by {
                    if at_pos(b, pos as int, enc_att(a)) {
                        lemma_att_parts(b, pos as int, a);
                    }
                }
            }
            return None;
        },
    };
    let (size, p4) = match dec_num(buf, p3) {
        Some(p) => p,
        None => {
            proof {
                assert forall|a: AttachmentView| !at_pos(b, pos as int, enc_att(a)) by {
                    if at_pos(b, pos as int, enc_att(a)) {
                        lemma_att_parts(b, pos as int, a);
                    }
                }
            }
            return None;
        },
    };
    let (data, p5) = match dec_txt(buf, p4) {
        Some(p) => p,
        None => {
            proof {
                assert forall|a: AttachmentView| !at_pos(b, pos as int, enc_att(a)) by {
                    if at_pos(b, pos as int, enc_att(a)) {
                        lemma_att_parts(b, pos as int, a);
                    }
                }
            }
            return None;
        },
    };
    let (thumbnail, p6) = match dec_opt(buf, p5) {
        Some(p) => p,
        None => {
            proof {
                assert forall|a: AttachmentView| !at_pos(b, pos as int, enc_att(a)) by {
                    if at_pos(b, pos as int, enc_att(a)) {
                        lemma_att_parts(b, pos as int, a);
                    }
                }
            }
            return None;
        },
    };
    let att = Attachment { id, filename, mime_type, size, data, thumbnail };
    proof {
        assert forall|a: AttachmentView|
            at_pos(b, pos as int, enc_att(a)) implies aview(att) == a && p6 == pos + enc_att(
            a,
        ).len() by {
            lemma_att_parts(b, pos as int, a);
            assert(aview(att) =~= a);
        }
    }
    Some((att, p6))
}

/// Splits an attachment's wire form into its parts, each standing at
/// its own position.
proof fn lemma_att_parts(buf: Seq<char>, pos: int, a: AttachmentView)
    requires
        at_pos(buf, pos, enc_att(a)),
    ensures
        at_pos(buf, pos, enc_txt(a.id)),
        at_pos(buf, pos + enc_txt(a.id).len(), enc_txt(a.filename)),
        at_pos(buf, pos + enc_txt(a.id).len() + enc_txt(a.filename).len(), enc_txt(a.mime_type)),
        at_pos(
            buf,
            pos + enc_txt(a.id).len() + enc_txt(a.filename).len() + enc_txt(a.mime_type).len(),
            enc_num(a.size as nat),
        ),
        at_pos(
            buf,
            pos + enc_txt(a.id).len() + enc_txt(a.filename).len() + enc_txt(a.mime_type).len()
                + enc_num(a.size as nat).len(),
            enc_txt(a.data),
        ),
        at_pos(
            buf,
            pos + enc_txt(a.id).len() + enc_txt(a.filename).len() + enc_txt(a.mime_type).len()
                + enc_num(a.size as nat).len() + enc_txt(a.data).len(),
            enc_opt(a.thumbnail),
        ),
{
    let s1 = enc_txt(a.id);
    let s2 = enc_txt(a.filename);
    let s3 = enc_txt(a.mime_type);
    let s4 = enc_num(a.size as nat);
    let s5 = enc_txt(a.data);
    let s6 = enc_opt(a.thumbnail);
    assert(enc_att(a) =~= s1 + (s2 + (s3 + (s4 + (s5 + s6)))));
    lemma_at_concat(buf, pos, s1, s2 + (s3 + (s4 + (s5 + s6))));
    lemma_at_concat(buf, pos + s1.len(), s2, s3 + (s4 + (s5 + s6)));
    lemma_at_concat(buf, pos + s1.len() + s2.len() as int, s3, s4 + (s5 + s6));
    lemma_at_concat(buf, pos + s1.len() + s2.len() + s3.len() as int, s4, s5 + s6);
    lemma_at_concat(buf, pos + s1.len() + s2.len() + s3.len() + s4.len() as int, s5, s6);
}

/// Each attachment's wire form is at least one character long, so a
/// stored count always fits the machine.
proof fn lemma_enc_atts_min(s: Seq<AttachmentView>)
    ensures
        enc_atts(s).len() >= s.len(),
    decreases s.len(),
{
    if s.len() > 0 {
        lemma_enc_atts_min(s.drop_first());
    }
}

/// One attachment's wire form followed by the rest: the list's wire
/// form splits after its head.
proof fn lemma_atts_step(buf: Seq<char>, cur: int, s: Seq<AttachmentView>, i: int)
    requires
        0 <= i < s.len(),
        at_pos(buf, cur, enc_atts(s.skip(i))),
    ensures
        at_pos(buf, cur, enc_att(s[i])),
        at_pos(buf, cur + enc_att(s[i]).len(), enc_atts(s.skip(i + 1))),
        enc_atts(s.skip(i)).len() == enc_att(s[i]).len() + enc_atts(s.skip(i + 1)).len(),
{
    let rest = s.skip(i);
    assert(rest.len() > 0);
    assert(rest[0] == s[i]);
    assert(enc_atts(rest) == enc_att(rest[0]) + enc_atts(rest.drop_first()));
    assert(rest.drop_first() =~= s.skip(i + 1));
    lemma_at_concat(buf, cur, enc_att(s[i]), enc_atts(s.skip(i + 1)));
}

/// Reads `count` attachments one after the other.
fn dec_atts(buf: &Vec<char>, pos: usize, count: u64) -> (r: Option<(Vec<Attachment>, usize)>)
    requires
        pos <= buf@.len(),
    ensures
        forall|s: Seq<AttachmentView>|
            s.len() == count && #[trigger] at_pos(buf@, pos as int, enc_atts(s)) ==> (r matches Some(
                p,
            ) && p.0@.map_values(|a: Attachment| aview(a)) == s && p.1 == pos + enc_atts(s).len()),
        r matches Some(p) ==> pos <= p.1 <= buf@.len(),
{
    let mut out: Vec<Attachment> = Vec::new();
    let mut cur: usize = pos;
    let mut i: u64 = 0;
    proof {
        assert forall|s: Seq<AttachmentView>|
            s.len() == count && #[trigger] at_pos(buf@, pos as int, enc_atts(s)) implies {
            &&& out@.map_values(|a: Attachment| aview(a)) == s.subrange(0, 0)
            &&& cur == pos + enc_atts(s).len() - enc_atts(s.skip(0)).len()
            &&& at_pos(buf@, cur as int, enc_atts(s.skip(0)))
        } by {
            assert(s.skip(0) =~= s);
            assert(out@.map_values(|a: Attachment| aview(a)) =~= s.subrange(0, 0));
        }
    }
    while i < count
        invariant
            pos <= cur <= buf@.len(),
            i <= count,
            out@.len() == i,
            forall|s: Seq<AttachmentView>|
                s.len() == count && #[trigger] at_pos(buf@, pos as int, enc_atts(s)) ==> {
                    &&& out@.map_values(|a: Attachment| aview(a)) == s.subrange(0, i as int)
                    &&& cur == pos + enc_atts(s).len() - enc_atts(s.skip(i as int)).len()
                    &&& at_pos(buf@, cur as int, enc_atts(s.skip(i as int)))
                },
        decreases count - i,
    {
        let ghost out_prev = out@;
        let ghost cur_prev = cur;
        let ghost i_prev = i;
        let (att, p2) = match dec_att(buf, cur) {
            Some(p) => p,
            None => {
                proof {
                    assert forall|s: Seq<AttachmentView>|
                        !(s.len() == count && #[trigger] at_pos(buf@, pos as int, enc_atts(s))) by {
                        if s.len() == count && at_pos(buf@, pos as int, enc_atts(s)) {
                            lemma_atts_step(buf@, cur as int, s, i as int);
                        }
                    }
                }
                return None;
            },
        };
        out.push(att);
        cur = p2;
        i = i + 1;
        proof {
            assert forall|s: Seq<AttachmentView>|
                s.len() == count && #[trigger] at_pos(buf@, pos as int, enc_atts(s)) implies {
                &&& out@.map_values(|a: Attachment| aview(a)) == s.subrange(0, i as int)
                &&& cur == pos + enc_atts(s).len() - enc_atts(s.skip(i as int)).len()
                &&& at_pos(buf@, cur as int, enc_atts(s.skip(i as int)))
            } by {
                lemma_atts_step(buf@, cur_prev as int, s, i_prev as int);
                assert(aview(att) == s[i_prev as int] && p2 == cur_prev + enc_att(
                    s[i_prev as int],
                ).len());
                assert(out@.map_values(|a: Attachment| aview(a)) =~= s.subrange(0, i as int));
            }
        }
    }
    proof {
        assert forall|s: Seq<AttachmentView>|
            s.len() == count && #[trigger] at_pos(buf@, pos as int, enc_atts(s)) implies
            out@.map_values(|a: Attachment| aview(a)) == s && cur == pos + enc_atts(s).len() by {
            assert(s.subrange(0, count as int) =~= s);
            assert(s.skip(count as int) =~= Seq::<AttachmentView>::empty());
            assert(enc_atts(Seq::<AttachmentView>::empty()).len() == 0);
        }
    }
    Some((out, cur))
}

/// Splits a message's wire form into its parts, each standing at its
/// own position.
proof fn lemma_msg_parts(buf: Seq<char>, m: MessageView)
    requires
        at_pos(buf, 0, enc_message(m)),
    ensures
        at_pos(buf, 0, enc_txt(m.from)),
        at_pos(buf, enc_txt(m.from).len() as int, enc_txt(m.from_name)),
        at_pos(buf, enc_txt(m.from).len() + enc_txt(m.from_name).len() as int, enc_txt(m.message)),
        at_pos(
            buf,
            enc_txt(m.from).len() + enc_txt(m.from_name).len() + enc_txt(m.message).len() as int,
            enc_txt(m.message_type),
        ),
        at_pos(
            buf,
            enc_txt(m.from).len() + enc_txt(m.from_name).len() + enc_txt(m.message).len()
                + enc_txt(m.message_type).len() as int,
            enc_txt(m.timestamp),
        ),
        at_pos(
            buf,
            enc_txt(m.from).len() + enc_txt(m.from_name).len() + enc_txt(m.message).len()
                + enc_txt(m.message_type).len() + enc_txt(m.timestamp).len() as int,
            enc_bool(m.is_self),
        ),
        at_pos(
            buf,
            enc_txt(m.from).len() + enc_txt(m.from_name).len() + enc_txt(m.message).len()
                + enc_txt(m.message_type).len() + enc_txt(m.timestamp).len() + enc_bool(
                m.is_self,
            ).len() as int,
            enc_num(m.attachments.len()),
        ),
        at_pos(
            buf,
            enc_txt(m.from).len() + enc_txt(m.from_name).len() + enc_txt(m.message).len()
                + enc_txt(m.message_type).len() + enc_txt(m.timestamp).len() + enc_bool(
                m.is_self,
            ).len() + enc_num(m.attachments.len()).len() as int,
            enc_atts(m.attachments),
        ),
{
    let s1 = enc_txt(m.from);
    let s2 = enc_txt(m.from_name);
    let s3 = enc_txt(m.message);
    let s4 = enc_txt(m.message_type);
    let s5 = enc_txt(m.timestamp);
    let s6 = enc_bool(m.is_self);
    let s7 = enc_num(m.attachments.len());
    let s8 = enc_atts(m.attachments);
    assert(enc_message(m) =~= s1 + (s2 + (s3 + (s4 + (s5 + (s6 + (s7 + s8)))))));
    lemma_at_concat(buf, 0, s1, s2 + (s3 + (s4 + (s5 + (s6 + (s7 + s8))))));
    lemma_at_concat(buf, s1.len() as int, s2, s3 + (s4 + (s5 + (s6 + (s7 + s8)))));
    lemma_at_concat(buf, s1.len() + s2.len() as int, s3, s4 + (s5 + (s6 + (s7 + s8))));
    lemma_at_concat(buf, s1.len() + s2.len() + s3.len() as int, s4, s5 + (s6 + (s7 + s8)));
    lemma_at_concat(buf, s1.len() + s2.len() + s3.len() + s4.len() as int, s5, s6 + (s7 + s8));
    lemma_at_concat(buf, s1.len() + s2.len() + s3.len() + s4.len() + s5.len() as int, s6, s7 + s8);
    lemma_at_concat(
        buf,
        s1.len() + s2.len() + s3.len() + s4.len() + s5.len() + s6.len() as int,
        s7,
        s8,
    );
}

/// Reads a message back from the store's wire form, into the reading
/// node's own frame of reference: whenever the input is the rendering
/// of some message, the result is that message in every field except
/// `is_self`, which is recomputed by comparing the sender address with
/// the reading node's address.
#[verifier::rlimit(100)]
pub fn decode_message(encoded: &str, local_ip: &str) -> (r: Option<ReceivedMessage>)
    ensures
        forall|m: MessageView|
            encoded@ == enc_message(m) ==> (r matches Some(d) && mview(d).from == m.from
                && mview(d).from_name == m.from_name && mview(d).message == m.message && mview(
                d,
            ).message_type == m.message_type && mview(d).timestamp == m.timestamp && mview(
                d,
            ).attachments == m.attachments && mview(d).is_self == (m.from == local_ip@)),
{
    let buf = crate::strutil::str_chars(encoded);
    let blen = buf.len();
    proof {
        assert forall|m: MessageView|
            encoded@ == enc_message(m) implies at_pos(buf@, 0, enc_message(m)) by {
            assert(buf@.subrange(0, enc_message(m).len() as int) =~= enc_message(m));
        }
    }
    let (from, p1) = match dec_txt(&buf, 0) {
        Some(p) => p,
        None => {
            proof {
                assert forall|m: MessageView| encoded@ != enc_message(m) by {
                    if encoded@ == enc_message(m) {
                        lemma_msg_parts(buf@, m);
                    }
                }
            }
            return None;
        },
    };
    let (from_name, p2) = match dec_txt(&buf, p1) {
        Some(p) => p,
        None => {
            proof {
                assert forall|m: MessageView| encoded@ != enc_message(m) by {
                    if encoded@ == enc_message(m) {
                        lemma_msg_parts(buf@, m);
                    }
                }
            }
            return None;
        },
    };
    let (message, p3) = match dec_txt(&buf, p2) {
        Some(p) => p,
        None => {
            proof {
                assert forall|m: MessageView| encoded@ != enc_message(m) by {
                    if encoded@ == enc_message(m) {
                        lemma_msg_parts(buf@, m);
                    }
                }
            }
            return None;
        },
    };
    let (message_type, p4) = match dec_txt(&buf, p3) {
        Some(p) => p,
        None => {
            proof {
                assert forall|m: MessageView| encoded@ != enc_message(m) by {
                    if encoded@ == enc_message(m) {
                        lemma_msg_parts(buf@, m);
                    }
                }
            }
            return None;
        },
    };
    let (timestamp, p5) = match dec_txt(&buf, p4) {
        Some(p) => p,
        None => {
            proof {
                assert forall|m: MessageView| encoded@ != enc_message(m) by {
                    if encoded@ == enc_message(m) {
                        lemma_msg_parts(buf@, m);
                    }
                }
            }
            return None;
        },
    };
    // The stored flag is read to keep the frame aligned, then ignored:
    // the reading node computes its own.
    let (_is_self_stored, p6) = match dec_bool(&buf, p5) {
        Some(p) => p,
        None => {
            proof {
                assert forall|m: MessageView| encoded@ != enc_message(m) by {
                    if encoded@ == enc_message(m) {
                        lemma_msg_parts(buf@, m);
                    }
                }
            }
            return None;
        },
    };
    let (count, p7) = match dec_num(&buf, p6) {
        Some(p) => p,
        None => {
            proof {
                assert forall|m: MessageView| encoded@ != enc_message(m) by {
                    if encoded@ == enc_message(m) {
                        lemma_msg_parts(buf@, m);
                        lemma_enc_atts_min(m.attachments);
                        assert((m.attachments.len() as u64) as nat == m.attachments.len());
                    }
                }
            }
            return None;
        },
    };
    let (attachments, p8) = match dec_atts(&buf, p7, count) {
        Some(p) => p,
        None => {
            proof {
                assert forall|m: MessageView| encoded@ != enc_message(m) by {
                    if encoded@ == enc_message(m) {
                        lemma_msg_parts(buf@, m);
                        lemma_enc_atts_min(m.attachments);
                        assert((m.attachments.len() as u64) as nat == m.attachments.len());
                    }
                }
            }
            return None;
        },
    };
    if p8 != blen {
        proof {
            assert forall|m: MessageView| encoded@ != enc_message(m) by {
                if encoded@ == enc_message(m) {
                    lemma_msg_parts(buf@, m);
                    lemma_enc_atts_min(m.attachments);
                    assert((m.attachments.len() as u64) as nat == m.attachments.len());
                }
            }
        }
        return None;
    }
    let is_self = crate::strutil::eq_str(from.as_str(), local_ip);
    let d = ReceivedMessage {
        from,
        from_name,
        message,
        message_type,
        timestamp,
        is_self,
        attachments,
    };
    proof {
        assert forall|m: MessageView|
            encoded@ == enc_message(m) implies mview(d).from == m.from && mview(d).from_name
            == m.from_name && mview(d).message == m.message && mview(d).message_type
            == m.message_type && mview(d).timestamp == m.timestamp && mview(d).attachments
            == m.attachments && mview(d).is_self == (m.from == local_ip@) by {
            lemma_msg_parts(buf@, m);
            lemma_enc_atts_min(m.attachments);
            assert((m.attachments.len() as u64) as nat == m.attachments.len());
            assert(mview(d).attachments =~= m.attachments);
        }
    }
    Some(d)
}

} // verus!
