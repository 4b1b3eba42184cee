//! The entity codec: encoding and decoding of the five predefined XML
//! entities (`&amp;` `&lt;` `&gt;` `&quot;` `&apos;`).
//!
//! Decoding runs a two-state machine over the input characters. Inside an
//! entity the body is bounded at four bytes of UTF-8 (the longest valid
//! bodies, `quot` and `apos`, are four ASCII bytes); a longer body or an
//! unknown body terminated by `;` fails with `Error::InvalidEntity`. An
//! entity still open when the input ends passes through unchanged.

use vstd::prelude::*;
use vstd::string::StringExecFns;
use crate::Error;

verus! {

/// Text produced by the codec together with a flag saying whether any
/// substitution happened. When `substituted` is false the text equals the
/// input, so a caller may treat it as a borrowed view of the input.
#[derive(Debug, PartialEq, Eq)]
pub struct Coded {
    pub text: String,
    pub substituted: bool,
}

/// The five characters that have a predefined entity.
pub open spec fn is_special(c: char) -> bool {
    c == '&' || c == '"' || c == '<' || c == '>' || c == '\''
}

/// The encoded form of one character: its entity if it has one,
/// otherwise the character itself.
pub open spec fn encoded_char(c: char) -> Seq<char> {
    if c == '&' {
        seq!['&', 'a', 'm', 'p', ';']
    } else if c == '"' {
        seq!['&', 'q', 'u', 'o', 't', ';']
    } else if c == '<' {
        seq!['&', 'l', 't', ';']
    } else if c == '>' {
        seq!['&', 'g', 't', ';']
    } else if c == '\'' {
        seq!['&', 'a', 'p', 'o', 's', ';']
    } else {
        seq![c]
    }
}

/// Entity-encoding of a whole character sequence.
pub open spec fn encode_chars(s: Seq<char>) -> Seq<char>
    decreases s.len(),
{
    if s.len() == 0 {
        Seq::empty()
    } else {
        encoded_char(s[0]) + encode_chars(s.drop_first())
    }
}

/// Whether any character of `s` needs an entity.
pub open spec fn has_special(s: Seq<char>) -> bool {
    exists|i: int| 0 <= i < s.len() && is_special(s[i])
}

/// The character a predefined entity body stands for, if the body is one
/// of the five predefined ones.
pub open spec fn entity_value(body: Seq<char>) -> Option<char> {
    if body == seq!['a', 'm', 'p'] {
        Some('&')
    } else if body == seq!['a', 'p', 'o', 's'] {
        Some('\'')
    } else if body == seq!['g', 't'] {
        Some('>')
    } else if body == seq!['l', 't'] {
        Some('<')
    } else if body == seq!['q', 'u', 'o', 't'] {
        Some('"')
    } else {
        None
    }
}

/// How many bytes the UTF-8 form of `c` takes.
pub open spec fn utf8_width(c: char) -> nat {
    if (c as u32) < 0x80 {
        1
    } else if (c as u32) < 0x800 {
        2
    } else if (c as u32) < 0x10000 {
        3
    } else {
        4
    }
}

/// The decoding state machine. `acc` is the output so far, `subst` whether
/// an entity has been substituted, `ent` the open entity body and its byte
/// length, if an entity is open. The result is the decoded text with the
/// substitution flag, or the offending entity body.
pub open spec fn decode_machine(
    s: Seq<char>,
    acc: Seq<char>,
    subst: bool,
    ent: Option<(Seq<char>, nat)>,
) -> Result<(Seq<char>, bool), Seq<char>>
    decreases s.len(),
{
    if s.len() == 0 {
        match ent {
            None => Ok((acc, subst)),
            // an unterminated entity passes through unchanged
            Some((body, blen)) => Ok((acc + seq!['&'] + body, subst)),
        }
    } else {
        let c = s[0];
        let rest = s.drop_first();
        match ent {
            None => {
                if c == '&' {
                    decode_machine(rest, acc, subst, Some((Seq::empty(), 0)))
                } else {
                    decode_machine(rest, acc.push(c), subst, None)
                }
            },
            Some((body, blen)) => {
                if c == ';' {
                    match entity_value(body) {
                        Some(d) => decode_machine(rest, acc.push(d), true, None),
                        None => Err(body),
                    }
                } else if blen + utf8_width(c) > 4 {
                    Err(body.push(c))
                } else {
                    decode_machine(rest, acc, subst, Some((body.push(c), blen + utf8_width(c))))
                }
            },
        }
    }
}

/// Entity-decoding of a whole character sequence.
pub open spec fn decode_chars(s: Seq<char>) -> Result<(Seq<char>, bool), Seq<char>> {
    decode_machine(s, Seq::empty(), false, None)
}

/// Relies on String::push: appends exactly one character at the end.
#[verifier::external_body]
pub(crate) fn push_char(s: &mut String, c: char)
    ensures
        final(s)@ == old(s)@.push(c),
{
    s.push(c);
}

/// How many bytes the UTF-8 form of `c` takes, executably.
pub(crate) fn char_width(c: char) -> (w: usize)
    ensures
        w == utf8_width(c),
{
    let u = c as u32;
    if u < 0x80 {
        1
    } else if u < 0x800 {
        2
    } else if u < 0x10000 {
        3
    } else {
        4
    }
}

/// Looks an entity body up in the predefined table.
fn entity_lookup(body: &String) -> (r: Option<char>)
    ensures
        r == entity_value(body@),
{
    proof {
        reveal_strlit("amp");
        reveal_strlit("apos");
        reveal_strlit("gt");
        reveal_strlit("lt");
        reveal_strlit("quot");
        assert("amp"@ =~= seq!['a', 'm', 'p']);
        assert("apos"@ =~= seq!['a', 'p', 'o', 's']);
        assert("gt"@ =~= seq!['g', 't']);
        assert("lt"@ =~= seq!['l', 't']);
        assert("quot"@ =~= seq!['q', 'u', 'o', 't']);
    }
    if *body == "amp".to_owned() {
        Some('&')
    } else if *body == "apos".to_owned() {
        Some('\'')
    } else if *body == "gt".to_owned() {
        Some('>')
    } else if *body == "lt".to_owned() {
        Some('<')
    } else if *body == "quot".to_owned() {
        Some('"')
    } else {
        None
    }
}

proof fn lemma_encode_push(s: Seq<char>, c: char)
    ensures
        encode_chars(s.push(c)) == encode_chars(s) + encoded_char(c),
    decreases s.len(),
{
    let sp = s.push(c);
    if s.len() == 0 {
        assert(sp[0] == c);
        assert(sp.drop_first() =~= Seq::<char>::empty());
        assert(encode_chars(sp) == encoded_char(c) + encode_chars(Seq::<char>::empty()));
        assert(encode_chars(Seq::<char>::empty()) == Seq::<char>::empty());
        assert(encoded_char(c) + Seq::<char>::empty() =~= encoded_char(c));
        assert(Seq::<char>::empty() + encoded_char(c) =~= encoded_char(c));
    } else {
        assert(sp[0] == s[0]);
        assert(sp.drop_first() =~= s.drop_first().push(c));
        lemma_encode_push(s.drop_first(), c);
        assert(encode_chars(sp) == encoded_char(s[0]) + (encode_chars(s.drop_first())
            + encoded_char(c)));
        assert(encoded_char(s[0]) + (encode_chars(s.drop_first()) + encoded_char(c)) =~= (
        encoded_char(s[0]) + encode_chars(s.drop_first())) + encoded_char(c));
    }
}

/// Scans the input once; each character with a predefined entity is
/// replaced by it, everything else is copied. `substituted` is false
/// exactly when no character needed replacement, in which case the text
/// equals the input.
pub fn encode(input: &str) -> (r: Result<Coded, Error>)
    ensures
        r matches Ok(c) && c.text@ == encode_chars(input@) && c.substituted == has_special(
            input@,
        ),
{
    let n = input.unicode_len();
    let mut out = String::new();
    let mut subst = false;
    let mut i: usize = 0;
    proof {
        reveal_strlit("&amp;");
        reveal_strlit("&quot;");
        reveal_strlit("&lt;");
        reveal_strlit("&gt;");
        reveal_strlit("&apos;");
        assert("&amp;"@ =~= seq!['&', 'a', 'm', 'p', ';']);
        assert("&quot;"@ =~= seq!['&', 'q', 'u', 'o', 't', ';']);
        assert("&lt;"@ =~= seq!['&', 'l', 't', ';']);
        assert("&gt;"@ =~= seq!['&', 'g', 't', ';']);
        assert("&apos;"@ =~= seq!['&', 'a', 'p', 'o', 's', ';']);
    }
    while i < n
        invariant
            i <= n,
            n == input@.len(),
            out@ == encode_chars(input@.take(i as int)),
            subst == has_special(input@.take(i as int)),
            "&amp;"@ =~= seq!['&', 'a', 'm', 'p', ';'],
            "&quot;"@ =~= seq!['&', 'q', 'u', 'o', 't', ';'],
            "&lt;"@ =~= seq!['&', 'l', 't', ';'],
            "&gt;"@ =~= seq!['&', 'g', 't', ';'],
            "&apos;"@ =~= seq!['&', 'a', 'p', 'o', 's', ';'],
        decreases n - i,
    {
        let c = input.get_char(i);
        proof {
            lemma_encode_push(input@.take(i as int), c);
            assert(input@.take(i as int).push(c) =~= input@.take(i + 1 as int));
        }
        if c == '&' {
            out.append("&amp;");
            subst = true;
        } else if c == '"' {
            out.append("&quot;");
            subst = true;
        } else if c == '<' {
            out.append("&lt;");
            subst = true;
        } else if c == '>' {
            out.append("&gt;");
            subst = true;
        } else if c == '\'' {
            out.append("&apos;");
            subst = true;
        } else {
            push_char(&mut out, c);
        }
        proof {
            let t1 = input@.take(i + 1 as int);
            let t0 = input@.take(i as int);
            assert(out@ =~= encode_chars(t1));
            if is_special(c) {
                assert(t1[i as int] == c);
                assert(has_special(t1));
            } else {
                if has_special(t1) {
                    let j = choose|j: int| 0 <= j < t1.len() && is_special(t1[j]);
                    if j < i {
                        assert(t0[j] == t1[j]);
                        assert(has_special(t0));
                    }
                }
                if has_special(t0) {
                    let j = choose|j: int| 0 <= j < t0.len() && is_special(t0[j]);
                    assert(t1[j] == t0[j]);
                    assert(has_special(t1));
                }
            }
        }
        i = i + 1;
    }
    proof {
        assert(input@.take(n as int) =~= input@);
    }
    Ok(Coded { text: out, substituted: subst })
}

/// Runs the decoding state machine over the input. On success the text
/// carries the decoded characters and `substituted` says whether any
/// entity was replaced; `substituted` false means the text equals the
/// input. An unknown or overlong entity body fails with
/// `Error::InvalidEntity` carrying that body.
pub fn decode(input: &str) -> (r: Result<Coded, Error>)
    ensures
        match decode_chars(input@) {
            Ok(p) => r matches Ok(c) && c.text@ == p.0 && c.substituted == p.1,
            Err(b) => r matches Err(Error::InvalidEntity(t)) && t@ == b,
        },
{
    let n = input.unicode_len();
    let mut out = String::new();
    let mut subst = false;
    let mut in_ent = false;
    let mut body = String::new();
    let mut blen: usize = 0;
    let mut i: usize = 0;
    proof {
        assert(input@.skip(0) =~= input@);
    }
    while i < n
        invariant
            i <= n,
            n == input@.len(),
            blen <= 4,
            decode_machine(
                input@.skip(i as int),
                out@,
                subst,
                if in_ent {
                    Some((body@, blen as nat))
                } else {
                    None
                },
            ) == decode_chars(input@),
        decreases n - i,
    {
        let c = input.get_char(i);
        let ghost s_i = input@.skip(i as int);
        let ghost s_n = input@.skip(i + 1 as int);
        proof {
            assert(s_i[0] == c);
            assert(s_i.drop_first() =~= s_n);
        }
        if !in_ent {
            if c == '&' {
                proof {
                    assert(decode_machine(s_i, out@, subst, None) == decode_machine(
                        s_n,
                        out@,
                        subst,
                        Some((Seq::<char>::empty(), 0)),
                    ));
                }
                in_ent = true;
                body = String::new();
                blen = 0;
            } else {
                proof {
                    assert(decode_machine(s_i, out@, subst, None) == decode_machine(
                        s_n,
                        out@.push(c),
                        subst,
                        None,
                    ));
                }
                push_char(&mut out, c);
            }
        } else {
            if c == ';' {
                match entity_lookup(&body) {
                    Some(d) => {
                        proof {
                            assert(decode_machine(s_i, out@, subst, Some((body@, blen as nat)))
                                == decode_machine(s_n, out@.push(d), true, None));
                        }
                        push_char(&mut out, d);
                        subst = true;
                        in_ent = false;
                    },
                    None => {
                        proof {
                            assert(decode_machine(s_i, out@, subst, Some((body@, blen as nat)))
                                == Err::<(Seq<char>, bool), Seq<char>>(body@));
                        }
                        return Err(Error::InvalidEntity(body));
                    },
                }
            } else {
                let w = char_width(c);
                if blen + w > 4 {
                    proof {
                        assert(decode_machine(s_i, out@, subst, Some((body@, blen as nat)))
                            == Err::<(Seq<char>, bool), Seq<char>>(body@.push(c)));
                    }
                    push_char(&mut body, c);
                    return Err(Error::InvalidEntity(body));
                } else {
                    proof {
                        assert(decode_machine(s_i, out@, subst, Some((body@, blen as nat)))
                            == decode_machine(
                            s_n,
                            out@,
                            subst,
                            Some((body@.push(c), (blen + w) as nat)),
                        ));
                    }
                    push_char(&mut body, c);
                    blen = blen + w;
                }
            }
        }
        i = i + 1;
    }
    proof {
        assert(input@.skip(n as int) =~= Seq::<char>::empty());
    }
    if in_ent {
        proof {
            assert(decode_machine(Seq::<char>::empty(), out@, subst, Some((body@, blen as nat)))
                == Ok::<(Seq<char>, bool), Seq<char>>((out@ + seq!['&'] + body@, subst)));
        }
        let ghost target = out@ + seq!['&'] + body@;
        push_char(&mut out, '&');
        out.append(body.as_str());
        proof {
            assert(out@ =~= target);
        }
        Ok(Coded { text: out, substituted: subst })
    } else {
        proof {
            assert(decode_machine(Seq::<char>::empty(), out@, subst, None) == Ok::<
                (Seq<char>, bool),
                Seq<char>,
            >((out@, subst)));
        }
        Ok(Coded { text: out, substituted: subst })
    }
}

proof fn lemma_machine_special(c: char, e: Seq<char>, acc: Seq<char>, subst: bool)
    requires
        is_special(c),
    ensures
        decode_machine(encoded_char(c) + e, acc, subst, None) == decode_machine(
            e,
            acc.push(c),
            true,
            None,
        ),
{
    let s0 = encoded_char(c) + e;
    let b0 = Seq::<char>::empty();
    assert(s0[0] == '&');
    if c == '&' {
        let s1 = seq!['a', 'm', 'p', ';'] + e;
        let s2 = seq!['m', 'p', ';'] + e;
        let s3 = seq!['p', ';'] + e;
        let s4 = seq![';'] + e;
        assert(s0.drop_first() =~= s1);
        assert(s1.drop_first() =~= s2);
        assert(s2.drop_first() =~= s3);
        assert(s3.drop_first() =~= s4);
        assert(s4.drop_first() =~= e);
        let b1 = b0.push('a');
        let b2 = b1.push('m');
        let b3 = b2.push('p');
        assert(decode_machine(s0, acc, subst, None) == decode_machine(
            s1,
            acc,
            subst,
            Some((b0, 0)),
        ));
        assert(s1[0] == 'a' && utf8_width('a') == 1);
        assert(decode_machine(s1, acc, subst, Some((b0, 0))) == decode_machine(
            s2,
            acc,
            subst,
            Some((b1, 1)),
        ));
        assert(s2[0] == 'm' && utf8_width('m') == 1);
        assert(decode_machine(s2, acc, subst, Some((b1, 1))) == decode_machine(
            s3,
            acc,
            subst,
            Some((b2, 2)),
        ));
        assert(s3[0] == 'p' && utf8_width('p') == 1);
        assert(decode_machine(s3, acc, subst, Some((b2, 2))) == decode_machine(
            s4,
            acc,
            subst,
            Some((b3, 3)),
        ));
        assert(s4[0] == ';');
        assert(b3 =~= seq!['a', 'm', 'p']);
        assert(entity_value(b3) == Some('&'));
        assert(decode_machine(s4, acc, subst, Some((b3, 3))) == decode_machine(
            e,
            acc.push('&'),
            true,
            None,
        ));
    } else if c == '"' {
        let s1 = seq!['q', 'u', 'o', 't', ';'] + e;
        let s2 = seq!['u', 'o', 't', ';'] + e;
        let s3 = seq!['o', 't', ';'] + e;
        let s4 = seq!['t', ';'] + e;
        let s5 = seq![';'] + e;
        assert(s0.drop_first() =~= s1);
        assert(s1.drop_first() =~= s2);
        assert(s2.drop_first() =~= s3);
        assert(s3.drop_first() =~= s4);
        assert(s4.drop_first() =~= s5);
        assert(s5.drop_first() =~= e);
        let b1 = b0.push('q');
        let b2 = b1.push('u');
        let b3 = b2.push('o');
        let b4 = b3.push('t');
        assert(decode_machine(s0, acc, subst, None) == decode_machine(
            s1,
            acc,
            subst,
            Some((b0, 0)),
        ));
        assert(s1[0] == 'q' && utf8_width('q') == 1);
        assert(decode_machine(s1, acc, subst, Some((b0, 0))) == decode_machine(
            s2,
            acc,
            subst,
            Some((b1, 1)),
        ));
        assert(s2[0] == 'u' && utf8_width('u') == 1);
        assert(decode_machine(s2, acc, subst, Some((b1, 1))) == decode_machine(
            s3,
            acc,
            subst,
            Some((b2, 2)),
        ));
        assert(s3[0] == 'o' && utf8_width('o') == 1);
        assert(decode_machine(s3, acc, subst, Some((b2, 2))) == decode_machine(
            s4,
            acc,
            subst,
            Some((b3, 3)),
        ));
        assert(s4[0] == 't' && utf8_width('t') == 1);
        assert(decode_machine(s4, acc, subst, Some((b3, 3))) == decode_machine(
            s5,
            acc,
            subst,
            Some((b4, 4)),
        ));
        assert(s5[0] == ';');
        assert(b4 =~= seq!['q', 'u', 'o', 't']);
        assert(entity_value(b4) == Some('"'));
        assert(decode_machine(s5, acc, subst, Some((b4, 4))) == decode_machine(
            e,
            acc.push('"'),
            true,
            None,
        ));
    } else if c == '<' {
        let s1 = seq!['l', 't', ';'] + e;
        let s2 = seq!['t', ';'] + e;
        let s3 = seq![';'] + e;
        assert(s0.drop_first() =~= s1);
        assert(s1.drop_first() =~= s2);
        assert(s2.drop_first() =~= s3);
        assert(s3.drop_first() =~= e);
        let b1 = b0.push('l');
        let b2 = b1.push('t');
        assert(decode_machine(s0, acc, subst, None) == decode_machine(
            s1,
            acc,
            subst,
            Some((b0, 0)),
        ));
        assert(s1[0] == 'l' && utf8_width('l') == 1);
        assert(decode_machine(s1, acc, subst, Some((b0, 0))) == decode_machine(
            s2,
            acc,
            subst,
            Some((b1, 1)),
        ));
        assert(s2[0] == 't' && utf8_width('t') == 1);
        assert(decode_machine(s2, acc, subst, Some((b1, 1))) == decode_machine(
            s3,
            acc,
            subst,
            Some((b2, 2)),
        ));
        assert(s3[0] == ';');
        assert(b2 =~= seq!['l', 't']);
        assert(entity_value(b2) == Some('<'));
        assert(decode_machine(s3, acc, subst, Some((b2, 2))) == decode_machine(
            e,
            acc.push('<'),
            true,
            None,
        ));
    } else if c == '>' {
        let s1 = seq!['g', 't', ';'] + e;
        let s2 = seq!['t', ';'] + e;
        let s3 = seq![';'] + e;
        assert(s0.drop_first() =~= s1);
        assert(s1.drop_first() =~= s2);
        assert(s2.drop_first() =~= s3);
        assert(s3.drop_first() =~= e);
        let b1 = b0.push('g');
        let b2 = b1.push('t');
        assert(decode_machine(s0, acc, subst, None) == decode_machine(
            s1,
            acc,
            subst,
            Some((b0, 0)),
        ));
        assert(s1[0] == 'g' && utf8_width('g') == 1);
        assert(decode_machine(s1, acc, subst, Some((b0, 0))) == decode_machine(
            s2,
            acc,
            subst,
            Some((b1, 1)),
        ));
        assert(s2[0] == 't' && utf8_width('t') == 1);
        assert(decode_machine(s2, acc, subst, Some((b1, 1))) == decode_machine(
            s3,
            acc,
            subst,
            Some((b2, 2)),
        ));
        assert(s3[0] == ';');
        assert(b2 =~= seq!['g', 't']);
        assert(entity_value(b2) == Some('>'));
        assert(decode_machine(s3, acc, subst, Some((b2, 2))) == decode_machine(
            e,
            acc.push('>'),
            true,
            None,
        ));
    } else {
        assert(c == '\'');
        let s1 = seq!['a', 'p', 'o', 's', ';'] + e;
        let s2 = seq!['p', 'o', 's', ';'] + e;
        let s3 = seq!['o', 's', ';'] + e;
        let s4 = seq!['s', ';'] + e;
        let s5 = seq![';'] + e;
        assert(s0.drop_first() =~= s1);
        assert(s1.drop_first() =~= s2);
        assert(s2.drop_first() =~= s3);
        assert(s3.drop_first() =~= s4);
        assert(s4.drop_first() =~= s5);
        assert(s5.drop_first() =~= e);
        let b1 = b0.push('a');
        let b2 = b1.push('p');
        let b3 = b2.push('o');
        let b4 = b3.push('s');
        assert(decode_machine(s0, acc, subst, None) == decode_machine(
            s1,
            acc,
            subst,
            Some((b0, 0)),
        ));
        assert(s1[0] == 'a' && utf8_width('a') == 1);
        assert(decode_machine(s1, acc, subst, Some((b0, 0))) == decode_machine(
            s2,
            acc,
            subst,
            Some((b1, 1)),
        ));
        assert(s2[0] == 'p' && utf8_width('p') == 1);
        assert(decode_machine(s2, acc, subst, Some((b1, 1))) == decode_machine(
            s3,
            acc,
            subst,
            Some((b2, 2)),
        ));
        assert(s3[0] == 'o' && utf8_width('o') == 1);
        assert(decode_machine(s3, acc, subst, Some((b2, 2))) == decode_machine(
            s4,
            acc,
            subst,
            Some((b3, 3)),
        ));
        assert(s4[0] == 's' && utf8_width('s') == 1);
        assert(decode_machine(s4, acc, subst, Some((b3, 3))) == decode_machine(
            s5,
            acc,
            subst,
            Some((b4, 4)),
        ));
        assert(s5[0] == ';');
        assert(b4 =~= seq!['a', 'p', 'o', 's']);
        assert(entity_value(b4) == Some('\''));
        assert(decode_machine(s5, acc, subst, Some((b4, 4))) == decode_machine(
            e,
            acc.push('\''),
            true,
            None,
        ));
    }
}

proof fn lemma_decode_encode_aux(s: Seq<char>, acc: Seq<char>, subst: bool)
    ensures
        decode_machine(encode_chars(s), acc, subst, None) matches Ok(p) && p.0 == acc + s && p.1
            == (subst || has_special(s)),
    decreases s.len(),
{
    if s.len() == 0 {
        assert(acc + s =~= acc);
        assert(!has_special(s));
    } else {
        let c = s[0];
        let rest = s.drop_first();
        assert(encode_chars(s) == encoded_char(c) + encode_chars(rest));
        if is_special(c) {
            lemma_machine_special(c, encode_chars(rest), acc, subst);
            lemma_decode_encode_aux(rest, acc.push(c), true);
            assert(acc.push(c) + rest =~= acc + s);
            assert(has_special(s)) by {
                assert(0 <= 0 < s.len() && is_special(s[0]));
            }
        } else {
            let s0 = encoded_char(c) + encode_chars(rest);
            assert(encoded_char(c) =~= seq![c]);
            assert(s0[0] == c);
            assert(s0.drop_first() =~= encode_chars(rest));
            lemma_decode_encode_aux(rest, acc.push(c), subst);
            assert(acc.push(c) + rest =~= acc + s);
            assert(has_special(s) == has_special(rest)) by {
                if has_special(rest) {
                    let j = choose|j: int| 0 <= j < rest.len() && is_special(rest[j]);
                    assert(s[j + 1] == rest[j]);
                    assert(has_special(s));
                }
                if has_special(s) {
                    let j = choose|j: int| 0 <= j < s.len() && is_special(s[j]);
                    assert(j != 0);
                    assert(rest[j - 1] == s[j]);
                    assert(has_special(rest));
                }
            }
        }
    }
}

/// Encoding text without special characters changes nothing.
pub proof fn lemma_encode_plain(s: Seq<char>)
    requires
        !has_special(s),
    ensures
        encode_chars(s) == s,
    decreases s.len(),
{
    if s.len() == 0 {
        assert(encode_chars(s) =~= s);
    } else {
        assert(!is_special(s[0])) by {
            if is_special(s[0]) {
                assert(has_special(s));
            }
        }
        assert(encoded_char(s[0]) =~= seq![s[0]]);
        assert(!has_special(s.drop_first())) by {
            if has_special(s.drop_first()) {
                let j = choose|j: int|
                    0 <= j < s.drop_first().len() && is_special(s.drop_first()[j]);
                assert(s[j + 1] == s.drop_first()[j]);
                assert(has_special(s));
            }
        }
        lemma_encode_plain(s.drop_first());
        assert(encode_chars(s) =~= s);
    }
}

/// Law: decoding undoes encoding. For every character sequence, encoding
/// and then decoding succeeds and yields the sequence back, and a
/// substitution is reported exactly when the sequence holds a character
/// with a predefined entity. (The other direction does not hold: inputs
/// may spell entities non-canonically, so encode after decode need not be
/// the identity.)
pub proof fn lemma_decode_encode(s: Seq<char>)
    ensures
        decode_chars(encode_chars(s)) matches Ok(p) && p.0 == s && p.1 == has_special(s),
{
    lemma_decode_encode_aux(s, Seq::empty(), false);
    assert(Seq::<char>::empty() + s =~= s);
}

} // verus!
