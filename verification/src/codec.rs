//! The protocol codec: printing messages as JSON text frames and parsing
//! them back.
//!
//! The printed form is canonical: fields in declaration order, no spaces,
//! `"` and `\` escaped with a backslash and every other character carried
//! through.  The parser accepts exactly that canonical form; whatever it
//! accepts it returns the message whose print is the input, character for
//! character.
use crate::protocol::{
    ClientMessage, ErrorCode, ErrorPayload, HelloPayload, JobPayload, PingPayload, PolicyPayload,
    PongPayload, ServerMessage, SharePayload, StatsPayload, SubmitPayload, SubmitResultPayload,
    SubmitStatus,
};
use crate::strutil::{dec_u64, push_char, write_u64};
use vstd::prelude::*;
use vstd::string::StrSliceExecFns;
use vstd::string::StringExecFns;

verus! {

/// The escaped form of one character inside a JSON string.
pub open spec fn esc(c: char) -> Seq<char> {
    if c == '"' || c == '\\' {
        seq!['\\', c]
    } else {
        seq![c]
    }
}

/// The escaped form of a whole string.
pub open spec fn json_escaped(s: Seq<char>) -> Seq<char>
    decreases s.len(),
{
    if s.len() == 0 {
        Seq::empty()
    } else {
        json_escaped(s.drop_last()) + esc(s.last())
    }
}

/// A string's characters escaped, then the closing quote.  (The opening
/// quote belongs to the literal chunk before the string.)
pub open spec fn jstr_body(s: Seq<char>) -> Seq<char> {
    json_escaped(s).push('"')
}

/// The view of an optional string.
pub open spec fn opt_view(o: Option<String>) -> Option<Seq<char>> {
    match o {
        Some(s) => Some(s@),
        None => None,
    }
}

/// An optional string field: its prefix (ending in the opening quote) and
/// body when present, nothing when absent.
pub open spec fn opt_str_field(prefix: Seq<char>, o: Option<Seq<char>>) -> Seq<char> {
    match o {
        Some(s) => prefix + jstr_body(s),
        None => Seq::empty(),
    }
}

/// An optional boolean field.
pub open spec fn opt_bool_field(prefix: Seq<char>, o: Option<bool>) -> Seq<char> {
    match o {
        Some(b) => prefix + (if b {
            "true"@
        } else {
            "false"@
        }),
        None => Seq::empty(),
    }
}

/// The canonical print of a client message.
pub open spec fn spec_ser_client(m: ClientMessage) -> Seq<char> {
    match m {
        ClientMessage::Hello { v, id, payload } => Seq::empty() + "{\"type\":\"hello\",\"v\":"@
            + dec_u64(v as nat) + opt_str_field(",\"id\":\""@, opt_view(id))
            + ",\"payload\":{\"miner_version\":\""@ + jstr_body(payload.miner_version@)
            + ",\"threads\":"@ + dec_u64(payload.threads as nat) + opt_str_field(
            ",\"site_token\":\""@,
            opt_view(payload.site_token),
        ) + opt_str_field(",\"user_agent_hint\":\""@, opt_view(payload.user_agent_hint))
            + opt_bool_field(",\"supports_binary\":"@, payload.supports_binary) + opt_str_field(
            ",\"randomx_mode\":\""@,
            opt_view(payload.randomx_mode),
        ) + "}}"@,
        ClientMessage::Submit { v, id, payload } => Seq::empty() + "{\"type\":\"submit\",\"v\":"@
            + dec_u64(v as nat) + ",\"id\":\""@ + jstr_body(id@)
            + ",\"payload\":{\"job_id\":\""@ + jstr_body(payload.job_id@) + ",\"nonce\":\""@
            + jstr_body(payload.nonce@) + "}}"@,
        ClientMessage::Share { v, id, payload } => Seq::empty() + "{\"type\":\"share\",\"v\":"@
            + dec_u64(v as nat) + opt_str_field(",\"id\":\""@, opt_view(id))
            + ",\"payload\":{\"job_id\":\""@ + jstr_body(payload.job_id@) + ",\"nonce\":"@
            + dec_u64(payload.nonce as nat) + ",\"result_hash_hex\":\""@ + jstr_body(
            payload.result_hash_hex@,
        ) + "}}"@,
        ClientMessage::Ping { v, id, payload } => Seq::empty() + "{\"type\":\"ping\",\"v\":"@
            + dec_u64(v as nat) + ",\"id\":\""@ + jstr_body(id@) + ",\"payload\":{}}"@,
    }
}

proof fn lemma_json_escaped_push(t: Seq<char>, c: char)
    ensures
        json_escaped(t.push(c)) == json_escaped(t) + esc(c),
{
    assert(t.push(c).drop_last() =~= t);
    assert(t.push(c).last() == c);
}

/// Appends a string's escaped characters and the closing quote.
fn write_str_body(out: &mut String, s: &str)
    ensures
        final (out)@ == old(out)@ + jstr_body(s@),
{
    let n = s.unicode_len();
    let mut i: usize = 0;
    while i < n
        invariant
            n == s@.len(),
            i <= n,
            out@ == old(out)@ + json_escaped(s@.take(i as int)),
        decreases n - i,
    {
        let c = s.get_char(i);
        if c == '"' || c == '\\' {
            push_char(out, '\\');
            push_char(out, c);
        } else {
            push_char(out, c);
        }
        proof {
            assert(s@.take(i + 1) =~= s@.take(i as int).push(c));
            lemma_json_escaped_push(s@.take(i as int), c);
            assert(out@ =~= old(out)@ + json_escaped(s@.take(i + 1)));
        }
        i = i + 1;
    }
    push_char(out, '"');
    proof {
        assert(s@.take(n as int) =~= s@);
        assert(out@ =~= old(out)@ + jstr_body(s@));
    }
}

/// Appends an optional string field.
fn write_opt_str_field(out: &mut String, prefix: &str, o: &Option<String>)
    ensures
        final (out)@ == old(out)@ + opt_str_field(prefix@, opt_view(*o)),
{
    match o {
        Some(s) => {
            out.append(prefix);
            write_str_body(out, s.as_str());
            proof {
                assert(out@ =~= old(out)@ + (prefix@ + jstr_body(s@)));
            }
        },
        None => {
            proof {
                assert(out@ =~= old(out)@ + Seq::<char>::empty());
            }
        },
    }
}

/// Appends an optional boolean field.
fn write_opt_bool_field(out: &mut String, prefix: &str, o: &Option<bool>)
    ensures
        final (out)@ == old(out)@ + opt_bool_field(prefix@, *o),
{
    match o {
        Some(b) => {
            out.append(prefix);
            if *b {
                out.append("true");
                proof {
                    assert(out@ =~= old(out)@ + (prefix@ + "true"@));
                }
            } else {
                out.append("false");
                proof {
                    assert(out@ =~= old(out)@ + (prefix@ + "false"@));
                }
            }
        },
        None => {
            proof {
                assert(out@ =~= old(out)@ + Seq::<char>::empty());
            }
        },
    }
}

/// Prints a client message in canonical form.
pub fn serialize_client(m: &ClientMessage) -> (r: String)
    ensures
        r@ == spec_ser_client(*m),
{
    let mut out = String::new();
    match m {
        ClientMessage::Hello { v, id, payload } => {
            out.append("{\"type\":\"hello\",\"v\":");
            write_u64(&mut out, *v as u64);
            write_opt_str_field(&mut out, ",\"id\":\"", id);
            out.append(",\"payload\":{\"miner_version\":\"");
            write_str_body(&mut out, payload.miner_version.as_str());
            out.append(",\"threads\":");
            write_u64(&mut out, payload.threads as u64);
            write_opt_str_field(&mut out, ",\"site_token\":\"", &payload.site_token);
            write_opt_str_field(&mut out, ",\"user_agent_hint\":\"", &payload.user_agent_hint);
            write_opt_bool_field(&mut out, ",\"supports_binary\":", &payload.supports_binary);
            write_opt_str_field(&mut out, ",\"randomx_mode\":\"", &payload.randomx_mode);
            out.append("}}");
        },
        ClientMessage::Submit { v, id, payload } => {
            out.append("{\"type\":\"submit\",\"v\":");
            write_u64(&mut out, *v as u64);
            out.append(",\"id\":\"");
            write_str_body(&mut out, id.as_str());
            out.append(",\"payload\":{\"job_id\":\"");
            write_str_body(&mut out, payload.job_id.as_str());
            out.append(",\"nonce\":\"");
            write_str_body(&mut out, payload.nonce.as_str());
            out.append("}}");
        },
        ClientMessage::Share { v, id, payload } => {
            out.append("{\"type\":\"share\",\"v\":");
            write_u64(&mut out, *v as u64);
            write_opt_str_field(&mut out, ",\"id\":\"", id);
            out.append(",\"payload\":{\"job_id\":\"");
            write_str_body(&mut out, payload.job_id.as_str());
            out.append(",\"nonce\":");
            write_u64(&mut out, payload.nonce as u64);
            out.append(",\"result_hash_hex\":\"");
            write_str_body(&mut out, payload.result_hash_hex.as_str());
            out.append("}}");
        },
        ClientMessage::Ping { v, id, payload } => {
            out.append("{\"type\":\"ping\",\"v\":");
            write_u64(&mut out, *v as u64);
            out.append(",\"id\":\"");
            write_str_body(&mut out, id.as_str());
            out.append(",\"payload\":{}}");
        },
    }
    out
}

/// Consumes `lit` at position `i`: the consumed characters are exactly the
/// literal.
fn expect_lit(s: &str, i: usize, lit: &str) -> (r: Option<usize>)
    ensures
        r matches Some(j) ==> i + lit@.len() == j && j <= s@.len() && s@.subrange(
            i as int,
            j as int,
        ) == lit@,
        r is None ==> i + lit@.len() > s@.len() || s@.subrange(i as int, i + lit@.len()) != lit@,
{
    let n = s.unicode_len();
    let m = lit.unicode_len();
    if i > n || m > n - i {
        return None;
    }
    let mut k: usize = 0;
    while k < m
        invariant
            n == s@.len(),
            m == lit@.len(),
            i + m <= n,
            k <= m,
            forall|t: int| 0 <= t < k ==> s@[i + t] == lit@[t],
        decreases m - k,
    {
        if s.get_char(i + k) != lit.get_char(k) {
            proof {
                assert(s@.subrange(i as int, i + lit@.len())[k as int] != lit@[k as int]);
            }
            return None;
        }
        k = k + 1;
    }
    proof {
        assert(s@.subrange(i as int, (i + m) as int) =~= lit@);
    }
    Some(i + m)
}

/// Escape streams decode deterministically from the left: when an escaped
/// prefix and a full string body describe the same characters, the body's
/// string starts with the prefix's characters and the remainder is itself a
/// string body.
#[verifier::rlimit(60)]
proof fn lemma_escaped_align(c: Seq<char>, x: Seq<char>, t: Seq<char>, y: Seq<char>)
    requires
        json_escaped(c) + x == jstr_body(t) + y,
    ensures
        exists|t2: Seq<char>| t == c + t2 && x == #[trigger] jstr_body(t2) + y,
    decreases c.len(),
{
    if c.len() == 0 {
        assert(t == c + t) by {
            assert(c + t =~= t);
        }
        assert(x =~= jstr_body(t) + y) by {
            assert(json_escaped(c) + x =~= x);
        }
    } else {
        lemma_json_escaped_front(c);
        let full = json_escaped(c) + x;
        let r1 = json_escaped(c.drop_first()) + x;
        assert(full =~= esc(c[0]) + r1);
        if t.len() == 0 {
            let q = seq!['"'];
            assert(jstr_body(t) + y =~= q + y);
            assert(full[0] == '"');
            assert(esc(c[0])[0] != '"');
            assert(false);
        } else {
            lemma_json_escaped_front(t);
            let q = seq!['"'];
            let r2 = json_escaped(t.drop_first()) + (q + y);
            assert(jstr_body(t) + y =~= esc(t[0]) + r2);
            let c0 = c[0];
            let t0 = t[0];
            let special1 = c0 == '"' || c0 == '\\';
            let special2 = t0 == '"' || t0 == '\\';
            if special1 && special2 {
                assert(full[1] == c0 && full[1] == t0);
                assert(full.skip(2) =~= r1);
                assert(full.skip(2) =~= r2);
                assert(json_escaped(c.drop_first()) + x =~= r1);
                assert(jstr_body(t.drop_first()) + y =~= r2);
                lemma_escaped_align(c.drop_first(), x, t.drop_first(), y);
                let t2 = choose|t2: Seq<char>|
                    t.drop_first() == c.drop_first() + t2 && x == #[trigger] jstr_body(t2) + y;
                assert(t.drop_first().len() == c.drop_first().len() + t2.len());
                assert forall|kk: int| 0 <= kk < t.len() implies t[kk] == (c + t2)[kk] by {
                    if kk > 0 {
                        assert(t.drop_first()[kk - 1] == (c.drop_first() + t2)[kk - 1]);
                    }
                }
                assert(t =~= c + t2);
            } else if special1 {
                assert(full[0] == '\\' && full[0] == t0 && t0 != '\\');
                assert(false);
            } else if special2 {
                assert(full[0] == c0 && full[0] == '\\' && c0 != '\\');
                assert(false);
            } else {
                assert(full[0] == c0 && full[0] == t0);
                assert(full.skip(1) =~= r1);
                assert(full.skip(1) =~= r2);
                assert(json_escaped(c.drop_first()) + x =~= r1);
                assert(jstr_body(t.drop_first()) + y =~= r2);
                lemma_escaped_align(c.drop_first(), x, t.drop_first(), y);
                let t2 = choose|t2: Seq<char>|
                    t.drop_first() == c.drop_first() + t2 && x == #[trigger] jstr_body(t2) + y;
                assert(t.drop_first().len() == c.drop_first().len() + t2.len());
                assert forall|kk: int| 0 <= kk < t.len() implies t[kk] == (c + t2)[kk] by {
                    if kk > 0 {
                        assert(t.drop_first()[kk - 1] == (c.drop_first() + t2)[kk - 1]);
                    }
                }
                assert(t =~= c + t2);
            }
        }
    }
}

/// When the escape scan runs off the end of the input or meets a bad
/// escape, no string body starts at `i`.
#[verifier::rlimit(60)]
proof fn lemma_str_body_stuck(s: Seq<char>, i: int, pos: int, c: Seq<char>)
    requires
        0 <= i <= pos <= s.len(),
        s.subrange(i, pos) == json_escaped(c),
        pos == s.len() || (s[pos] == '\\' && (pos + 1 == s.len() || !(s[pos + 1] == '"' || s[pos
            + 1] == '\\'))),
    ensures
        forall|t: Seq<char>, j: int|
            #![trigger s.subrange(i, j), jstr_body(t)]
            !(i <= j <= s.len() && s.subrange(i, j) == jstr_body(t)),
{
    assert forall|t: Seq<char>, j: int|
        #![trigger s.subrange(i, j), jstr_body(t)]
        !(i <= j <= s.len() && s.subrange(i, j) == jstr_body(t)) by {
        if i <= j <= s.len() && s.subrange(i, j) == jstr_body(t) {
            let send = s.len() as int;
            let full = s.subrange(i, send);
            let rest = s.subrange(pos, send);
            let tail = s.subrange(j, send);
            assert(json_escaped(c) + rest =~= full);
            assert(jstr_body(t) + tail =~= full);
            lemma_escaped_align(c, rest, t, tail);
            let t2 = choose|t2: Seq<char>|
                t == c + t2 && rest == #[trigger] jstr_body(t2) + tail;
            assert(jstr_body(t2).len() >= 1);
            if pos == s.len() {
                assert(rest.len() == 0);
                assert(false);
            } else {
                assert(rest[0] == s[pos]);
                assert(rest[0] == jstr_body(t2)[0]);
                if t2.len() == 0 {
                    assert(json_escaped(t2).len() == 0);
                    assert(jstr_body(t2)[0] == '"');
                    assert(false);
                } else {
                    lemma_json_escaped_front(t2);
                    assert(json_escaped(t2) == esc(t2[0]) + json_escaped(t2.drop_first()));
                    assert(jstr_body(t2)[0] == esc(t2[0])[0]);
                    assert(esc(t2[0])[0] == '\\');
                    assert(t2[0] == '"' || t2[0] == '\\');
                    assert(esc(t2[0]) =~= seq!['\\', t2[0]]);
                    assert(json_escaped(t2).len() >= 2);
                    assert(jstr_body(t2).len() >= 3);
                    assert(rest.len() >= 3);
                    assert(pos + 1 < s.len());
                    assert(rest[1] == s[pos + 1]);
                    assert(jstr_body(t2)[1] == esc(t2[0])[1]);
                    assert(rest[1] == t2[0]);
                    assert(false);
                }
            }
        }
    }
}

/// Parses a string body up to and including its closing quote, undoing the
/// escaping: the consumed characters are exactly the returned string's
/// escaped print.
fn parse_str_body(s: &str, i: usize) -> (r: Option<(String, usize)>)
    requires
        i <= s@.len(),
    ensures
        r matches Some((t, j)) ==> i <= j <= s@.len() && s@.subrange(i as int, j as int)
            == jstr_body(t@),
        r is None ==> forall|t: Seq<char>, j: int|
            #![trigger s@.subrange(i as int, j), jstr_body(t)]
            !(i <= j <= s@.len() && s@.subrange(i as int, j) == jstr_body(t)),
{
    let n = s.unicode_len();
    let mut t = String::new();
    let mut pos: usize = i;
    loop
        invariant
            n == s@.len(),
            i <= pos <= n,
            s@.subrange(i as int, pos as int) == json_escaped(t@),
        decreases n - pos,
    {
        if pos >= n {
            proof {
                lemma_str_body_stuck(s@, i as int, pos as int, t@);
            }
            return None;
        }
        let c = s.get_char(pos);
        if c == '"' {
            proof {
                assert(s@.subrange(i as int, (pos + 1) as int) =~= s@.subrange(
                    i as int,
                    pos as int,
                ).push(c));
            }
            return Some((t, pos + 1));
        } else if c == '\\' {
            if pos + 1 >= n {
                proof {
                    lemma_str_body_stuck(s@, i as int, pos as int, t@);
                }
                return None;
            }
            let c2 = s.get_char(pos + 1);
            if c2 == '"' || c2 == '\\' {
                let ghost tpre = t@;
                push_char(&mut t, c2);
                proof {
                    lemma_json_escaped_push(tpre, c2);
                    assert(esc(c2) =~= seq!['\\', c2]);
                    assert(s@.subrange(i as int, (pos + 2) as int) =~= s@.subrange(
                        i as int,
                        pos as int,
                    ) + esc(c2));
                    assert(s@.subrange(i as int, (pos + 2) as int) == json_escaped(t@));
                }
                pos = pos + 2;
            } else {
                proof {
                    lemma_str_body_stuck(s@, i as int, pos as int, t@);
                }
                return None;
            }
        } else {
            let ghost tpre = t@;
            push_char(&mut t, c);
            proof {
                lemma_json_escaped_push(tpre, c);
                assert(esc(c) =~= seq![c]);
                assert(s@.subrange(i as int, (pos + 1) as int) =~= s@.subrange(i as int, pos as int)
                    + esc(c));
                assert(s@.subrange(i as int, (pos + 1) as int) == json_escaped(t@));
            }
            pos = pos + 1;
        }
    }
}

/// Parses a canonical decimal number: the consumed characters are exactly
/// its print.
fn parse_u64_at(s: &str, i: usize) -> (r: Option<(u64, usize)>)
    ensures
        r matches Some((x, j)) ==> i < j <= s@.len() && s@.subrange(i as int, j as int) == dec_u64(
            x as nat,
        ) && (j == s@.len() || !is_digit_char(s@[j as int])),
        r is None ==> forall|x: u64, j: int|
            #![trigger s@.subrange(i as int, j), dec_u64(x as nat)]
            !(i < j <= s@.len() && s@.subrange(i as int, j) == dec_u64(x as nat) && (j == s@.len()
                || !is_digit_char(s@[j]))),
{
    let n = s.unicode_len();
    if i >= n {
        return None;
    }
    let c0 = s.get_char(i);
    let u0 = c0 as u32;
    if !(48 <= u0 && u0 <= 57) {
        proof {
            assert forall|x: u64, j: int|
                #![trigger s@.subrange(i as int, j), dec_u64(x as nat)]
                !(i < j <= s@.len() && s@.subrange(i as int, j) == dec_u64(x as nat) && (j
                    == s@.len() || !is_digit_char(s@[j]))) by {
                if i < j <= s@.len() && s@.subrange(i as int, j) == dec_u64(x as nat) {
                    crate::strutil::lemma_dec_u64_digits(x as nat);
                    assert(s@.subrange(i as int, j)[0] == s@[i as int]);
                    assert(is_digit_char(s@[i as int]));
                }
            }
        }
        return None;
    }
    let d0 = (u0 - 48) as u64;
    if d0 == 0 {
        if i + 1 < n {
            let c1 = s.get_char(i + 1);
            let u1 = c1 as u32;
            if 48 <= u1 && u1 <= 57 {
                // A canonical print starting with a zero digit is "0" alone,
                // and here another digit follows it.
                proof {
                    assert forall|x: u64, j: int|
                        #![trigger s@.subrange(i as int, j), dec_u64(x as nat)]
                        !(i < j <= s@.len() && s@.subrange(i as int, j) == dec_u64(x as nat) && (j
                            == s@.len() || !is_digit_char(s@[j]))) by {
                        if i < j <= s@.len() && s@.subrange(i as int, j) == dec_u64(x as nat) && (j
                            == s@.len() || !is_digit_char(s@[j])) {
                            assert(s@.subrange(i as int, j)[0] == s@[i as int]);
                            assert(dec_u64(x as nat)[0] == crate::strutil::dec_digit_char(0));
                            if x >= 1 {
                                crate::strutil::lemma_dec_no_leading_zero(x as nat);
                            }
                            assert(x == 0);
                            assert(dec_u64(0) =~= seq![crate::strutil::dec_digit_char(0)]);
                            assert(j == i + 1);
                            assert(is_digit_char(s@[i + 1]));
                        }
                    }
                }
                return None;
            }
        }
        proof {
            assert(s@.subrange(i as int, (i + 1) as int) =~= seq![c0]);
            assert(dec_u64(0) =~= seq![crate::strutil::dec_digit_char(0)]);
        }
        return Some((0, i + 1));
    }
    let mut acc: u64 = d0;
    let mut pos: usize = i + 1;
    proof {
        assert(s@.subrange(i as int, (i + 1) as int) =~= seq![c0]);
        assert(dec_u64(acc as nat) =~= seq![crate::strutil::dec_digit_char(acc as u8)]);
    }
    while pos < n
        invariant
            n == s@.len(),
            i < pos <= n,
            1 <= acc,
            s@.subrange(i as int, pos as int) == dec_u64(acc as nat),
        decreases n - pos,
    {
        let c = s.get_char(pos);
        let u = c as u32;
        if !(48 <= u && u <= 57) {
            return Some((acc, pos));
        }
        let d = (u - 48) as u64;
        let limit = (u64::MAX - d) / 10;
        if acc > limit {
            // The digit run continues past a value the clock type can hold:
            // no canonical print of a u64 covers it.
            proof {
                lemma_u64_digit_run_overflow(s@, i as int, pos as int, acc, d);
            }
            return None;
        }
        proof {
            vstd::arithmetic::div_mod::lemma_fundamental_div_mod((u64::MAX - d) as int, 10);
            assert(acc * 10 <= limit * 10) by (nonlinear_arith)
                requires
                    acc <= limit,
            ;
            assert(limit * 10 <= u64::MAX - d);
        }
        let newacc = acc * 10 + d;
        proof {
            vstd::arithmetic::div_mod::lemma_fundamental_div_mod_converse(
                newacc as int,
                10,
                acc as int,
                d as int,
            );
            assert(dec_u64(newacc as nat) == dec_u64(acc as nat).push(
                crate::strutil::dec_digit_char(d as u8),
            ));
            assert(s@.subrange(i as int, (pos + 1) as int) =~= s@.subrange(
                i as int,
                pos as int,
            ).push(c));
            assert(c == crate::strutil::dec_digit_char(d as u8));
        }
        acc = newacc;
        pos = pos + 1;
    }
    Some((acc, pos))
}

/// When a digit run already prints `acc` and continues with a digit that
/// would push the value past the clock type's maximum, no canonical `u64`
/// print followed by a non-digit covers the run.
#[verifier::rlimit(60)]
proof fn lemma_u64_digit_run_overflow(s: Seq<char>, i: int, pos: int, acc: u64, d: u64)
    requires
        0 <= i < pos < s.len(),
        1 <= acc,
        d < 10,
        s.subrange(i, pos) == dec_u64(acc as nat),
        s[pos] == crate::strutil::dec_digit_char(d as u8),
        acc > (u64::MAX - d) / 10,
    ensures
        forall|x: u64, j: int|
            #![trigger s.subrange(i, j), dec_u64(x as nat)]
            !(i < j <= s.len() && s.subrange(i, j) == dec_u64(x as nat) && (j == s.len()
                || !is_digit_char(s[j]))),
{
    crate::strutil::lemma_dec_u64_digits(acc as nat);
    assert forall|x: u64, j: int|
        #![trigger s.subrange(i, j), dec_u64(x as nat)]
        !(i < j <= s.len() && s.subrange(i, j) == dec_u64(x as nat) && (j == s.len()
            || !is_digit_char(s[j]))) by {
        if i < j <= s.len() && s.subrange(i, j) == dec_u64(x as nat) && (j == s.len()
            || !is_digit_char(s[j])) {
            crate::strutil::lemma_dec_u64_digits(x as nat);
            // every character of the run from i is a digit up to pos
            assert(forall|kk: int|
                i <= kk < pos ==> is_digit_char(#[trigger] s[kk])) by {
                assert(forall|kk: int|
                    i <= kk < pos ==> s[kk] == dec_u64(acc as nat)[kk - i]);
            }
            assert(is_digit_char(s[pos]));
            // so the hypothetical print must extend past pos
            assert(forall|kk: int| i <= kk < j ==> is_digit_char(#[trigger] s[kk])) by {
                assert(forall|kk: int| i <= kk < j ==> s[kk] == dec_u64(x as nat)[kk - i]);
            }
            assert(j > pos) by {
                if j <= pos {
                    assert(is_digit_char(s[j]));
                }
            }
            let ll = dec_u64(x as nat).len();
            assert(ll == j - i);
            // its first pos-i digits print acc, and the next one is d
            assert(dec_u64(x as nat).take(pos - i) =~= s.subrange(i, pos));
            assert(dec_u64(x as nat)[pos - i] == s[pos]);
            crate::strutil::lemma_dec_take(x as nat, pos - i + 1);
            let p = vstd::arithmetic::power::pow(10, (ll - (pos - i + 1)) as nat);
            vstd::arithmetic::power::lemma_pow_positive(10, (ll - (pos - i + 1)) as nat);
            let y = (x as nat) / (p as nat);
            crate::strutil::lemma_dec_append(acc as nat, d as nat);
            assert(dec_u64(x as nat).take(pos - i + 1) =~= dec_u64(
                (acc as nat) * 10 + (d as nat),
            ));
            crate::strutil::lemma_dec_u64_injective(y, (acc as nat) * 10 + (d as nat));
            // y is a quotient of x, so it fits the clock type; but the value
            // acc * 10 + d does not
            vstd::arithmetic::div_mod::lemma_div_is_ordered_by_denominator(x as int, 1, p);
            assert((acc as nat) * 10 + (d as nat) > u64::MAX) by {
                let limit = (u64::MAX - d) / 10;
                vstd::arithmetic::div_mod::lemma_fundamental_div_mod((u64::MAX - d) as int, 10);
                assert(acc * 10 >= limit * 10 + 10) by (nonlinear_arith)
                    requires
                        acc > limit,
                ;
                assert(limit * 10 + 10 > u64::MAX - d);
            }
            assert(false);
        }
    }
}

/// A decimal digit character.
pub open spec fn is_digit_char(c: char) -> bool {
    48 <= c as u32 <= 57
}

proof fn lemma_concat_peel(p: Seq<char>, r1: Seq<char>, r2: Seq<char>)
    requires
        p + r1 == p + r2,
    ensures
        r1 == r2,
{
    assert(r1 =~= (p + r1).skip(p.len() as int));
    assert(r2 =~= (p + r2).skip(p.len() as int));
}

/// A decimal print followed by a non-digit determines the number and the
/// rest: prints never run into each other.
proof fn lemma_dec_prefix_free(n1: nat, n2: nat, t1: Seq<char>, t2: Seq<char>)
    requires
        dec_u64(n1) + t1 == dec_u64(n2) + t2,
        t1.len() > 0 ==> !is_digit_char(t1[0]),
        t2.len() > 0 ==> !is_digit_char(t2[0]),
    ensures
        n1 == n2,
        t1 == t2,
{
    crate::strutil::lemma_dec_u64_digits(n1);
    crate::strutil::lemma_dec_u64_digits(n2);
    let a = dec_u64(n1);
    let b = dec_u64(n2);
    if a.len() < b.len() {
        assert((a + t1)[a.len() as int] == t1[0]);
        assert((b + t2)[a.len() as int] == b[a.len() as int]);
        assert(false);
    } else if b.len() < a.len() {
        assert((b + t2)[b.len() as int] == t2[0]);
        assert((a + t1)[b.len() as int] == a[b.len() as int]);
        assert(false);
    } else {
        assert(a =~= b) by {
            assert(forall|i: int|
                0 <= i < a.len() ==> (a + t1)[i] == a[i] && (b + t2)[i] == #[trigger] b[i]);
        }
        crate::strutil::lemma_dec_u64_injective(n1, n2);
        lemma_concat_peel(a, t1, t2);
    }
}

proof fn lemma_json_escaped_front(s: Seq<char>)
    requires
        s.len() > 0,
    ensures
        json_escaped(s) == esc(s[0]) + json_escaped(s.drop_first()),
    decreases s.len(),
{
    if s.len() == 1 {
        assert(s.drop_last() =~= Seq::<char>::empty());
        assert(s.drop_first() =~= Seq::<char>::empty());
        assert(json_escaped(s) =~= esc(s[0]) + json_escaped(s.drop_first()));
    } else {
        lemma_json_escaped_front(s.drop_last());
        assert(s.drop_last()[0] == s[0]);
        assert(s.drop_last().drop_first() =~= s.drop_first().drop_last());
        assert(s.drop_first().last() == s.last());
        assert(json_escaped(s) == (esc(s[0]) + json_escaped(s.drop_first().drop_last())) + esc(
            s.last(),
        ));
        assert((esc(s[0]) + json_escaped(s.drop_first().drop_last())) + esc(s.last()) =~= esc(s[0])
            + (json_escaped(s.drop_first().drop_last()) + esc(s.last())));
        assert(json_escaped(s.drop_first()) == json_escaped(s.drop_first().drop_last()) + esc(
            s.drop_first().last(),
        ));
    }
}

/// A string body (escaped characters, then the closing quote) determines the
/// string and the rest: the first unescaped quote ends it unambiguously.
#[verifier::rlimit(60)]
proof fn lemma_jstr_prefix_free(s1: Seq<char>, t1: Seq<char>, s2: Seq<char>, t2: Seq<char>)
    requires
        jstr_body(s1) + t1 == jstr_body(s2) + t2,
    ensures
        s1 == s2,
        t1 == t2,
    decreases s1.len(),
{
    let q = seq!['"'];
    let full = jstr_body(s1) + t1;
    assert(jstr_body(s1) + t1 =~= json_escaped(s1) + (q + t1));
    assert(jstr_body(s2) + t2 =~= json_escaped(s2) + (q + t2));
    if s1.len() == 0 && s2.len() == 0 {
        assert(full[0] == '"');
        assert(t1 =~= full.skip(1));
        assert(t2 =~= (jstr_body(s2) + t2).skip(1));
        assert(s1 =~= s2);
    } else if s1.len() == 0 {
        lemma_json_escaped_front(s2);
        assert(full[0] == q[0]);
        let e2 = esc(s2[0]);
        assert((json_escaped(s2) + (q + t2))[0] == e2[0]);
        assert(e2[0] != '"');
        assert(false);
    } else if s2.len() == 0 {
        lemma_json_escaped_front(s1);
        assert((jstr_body(s2) + t2)[0] == q[0]);
        let e1 = esc(s1[0]);
        assert((json_escaped(s1) + (q + t1))[0] == e1[0]);
        assert(e1[0] != '"');
        assert(false);
    } else {
        lemma_json_escaped_front(s1);
        lemma_json_escaped_front(s2);
        let c1 = s1[0];
        let c2 = s2[0];
        let r1 = json_escaped(s1.drop_first()) + (q + t1);
        let r2 = json_escaped(s2.drop_first()) + (q + t2);
        assert(full =~= esc(c1) + r1);
        assert(full =~= esc(c2) + r2);
        let special1 = c1 == '"' || c1 == '\\';
        let special2 = c2 == '"' || c2 == '\\';
        if special1 && special2 {
            assert(full[1] == c1 && full[1] == c2);
            assert(full.skip(2) =~= r1);
            assert(full.skip(2) =~= r2);
            assert(jstr_body(s1.drop_first()) + t1 =~= r1);
            assert(jstr_body(s2.drop_first()) + t2 =~= r2);
            lemma_jstr_prefix_free(s1.drop_first(), t1, s2.drop_first(), t2);
            assert forall|i: int| 0 <= i < s1.len() implies s1[i] == s2[i] by {
                if i > 0 {
                    assert(s1.drop_first()[i - 1] == s2.drop_first()[i - 1]);
                }
            }
            assert(s1 =~= s2);
        } else if special1 {
            assert(full[0] == '\\' && full[0] == c2 && c2 != '\\');
            assert(false);
        } else if special2 {
            assert(full[0] == c1 && full[0] == '\\' && c1 != '\\');
            assert(false);
        } else {
            assert(full[0] == c1 && full[0] == c2);
            assert(full.skip(1) =~= r1);
            assert(full.skip(1) =~= r2);
            assert(jstr_body(s1.drop_first()) + t1 =~= r1);
            assert(jstr_body(s2.drop_first()) + t2 =~= r2);
            lemma_jstr_prefix_free(s1.drop_first(), t1, s2.drop_first(), t2);
            assert forall|i: int| 0 <= i < s1.len() implies s1[i] == s2[i] by {
                if i > 0 {
                    assert(s1.drop_first()[i - 1] == s2.drop_first()[i - 1]);
                }
            }
            assert(s1 =~= s2);
        }
    }
}

/// Parses an optional string field at `i`: present iff its prefix is next.
fn parse_opt_str_field(s: &str, i: usize, prefix: &str) -> (r: Option<(Option<String>, usize)>)
    requires
        i <= s@.len(),
    ensures
        r matches Some((o, j)) ==> i <= j <= s@.len() && s@.subrange(i as int, j as int)
            == opt_str_field(prefix@, opt_view(o)),
        r matches Some((o, j)) ==> (o is None ==> j == i && (i + prefix@.len() > s@.len()
            || s@.subrange(i as int, i + prefix@.len()) != prefix@)),
        r is None ==> i + prefix@.len() <= s@.len() && s@.subrange(i as int, i + prefix@.len())
            == prefix@ && (forall|t: Seq<char>, j: int|
            #![trigger s@.subrange(i + prefix@.len(), j), jstr_body(t)]
            !(i + prefix@.len() <= j <= s@.len() && s@.subrange(i + prefix@.len(), j) == jstr_body(
                t,
            ))),
{
    match expect_lit(s, i, prefix) {
        Some(j2) => match parse_str_body(s, j2) {
            Some((t, j3)) => {
                proof {
                    assert(s@.subrange(i as int, j3 as int) =~= s@.subrange(i as int, j2 as int)
                        + s@.subrange(j2 as int, j3 as int));
                }
                Some((Some(t), j3))
            },
            None => None,
        },
        None => {
            proof {
                assert(s@.subrange(i as int, i as int) =~= Seq::<char>::empty());
            }
            Some((None, i))
        },
    }
}

/// Parses an optional boolean field at `i`: present iff its prefix is next.
fn parse_opt_bool_field(s: &str, i: usize, prefix: &str) -> (r: Option<(Option<bool>, usize)>)
    requires
        i <= s@.len(),
    ensures
        r matches Some((o, j)) ==> i <= j <= s@.len() && s@.subrange(i as int, j as int)
            == opt_bool_field(prefix@, o),
        r matches Some((o, j)) ==> (o is None ==> j == i && (i + prefix@.len() > s@.len()
            || s@.subrange(i as int, i + prefix@.len()) != prefix@)),
        r is None ==> i + prefix@.len() <= s@.len() && s@.subrange(i as int, i + prefix@.len())
            == prefix@ && (i + prefix@.len() + "true"@.len() > s@.len() || s@.subrange(
            i + prefix@.len(),
            i + prefix@.len() + "true"@.len(),
        ) != "true"@) && (i + prefix@.len() + "false"@.len() > s@.len() || s@.subrange(
            i + prefix@.len(),
            i + prefix@.len() + "false"@.len(),
        ) != "false"@),
{
    match expect_lit(s, i, prefix) {
        Some(j2) => {
            if let Some(j3) = expect_lit(s, j2, "true") {
                proof {
                    assert(s@.subrange(i as int, j3 as int) =~= s@.subrange(i as int, j2 as int)
                        + s@.subrange(j2 as int, j3 as int));
                }
                Some((Some(true), j3))
            } else if let Some(j3) = expect_lit(s, j2, "false") {
                proof {
                    assert(s@.subrange(i as int, j3 as int) =~= s@.subrange(i as int, j2 as int)
                        + s@.subrange(j2 as int, j3 as int));
                }
                Some((Some(false), j3))
            } else {
                None
            }
        },
        None => {
            proof {
                assert(s@.subrange(i as int, i as int) =~= Seq::<char>::empty());
            }
            Some((None, i))
        },
    }
}





/// Ghost step: extend a consumed prefix by one piece.
proof fn lemma_chain(s: Seq<char>, a: int, b: int, c: int)
    requires
        0 <= a <= b <= c <= s.len(),
    ensures
        s.subrange(a, c) == s.subrange(a, b) + s.subrange(b, c),
{
    assert(s.subrange(a, c) =~= s.subrange(a, b) + s.subrange(b, c));
}





/// Parses a client message in canonical form: on success the input is
/// exactly the returned message's canonical print.
#[verifier::rlimit(100)]
pub fn parse_client(s: &str) -> (r: Option<ClientMessage>)
    ensures
        r matches Some(m) ==> s@ == spec_ser_client(m),
{
    let n = s.unicode_len();
    if let Some(j1) = expect_lit(s, 0, "{\"type\":\"hello\",\"v\":") {
        let (vn, j2) = match parse_u64_at(s, j1) {
            Some(x) => x,
            None => { return None },
        };
        if vn > 255 {
            return None;
        }
        let v = vn as u8;
        let (id, j3) = match parse_opt_str_field(s, j2, ",\"id\":\"") {
            Some(x) => x,
            None => { return None },
        };
        let j4 = match expect_lit(s, j3, ",\"payload\":{\"miner_version\":\"") {
            Some(x) => x,
            None => { return None },
        };
        let (miner_version, j5) = match parse_str_body(s, j4) {
            Some(x) => x,
            None => { return None },
        };
        let j6 = match expect_lit(s, j5, ",\"threads\":") {
            Some(x) => x,
            None => { return None },
        };
        let (tn, j7) = match parse_u64_at(s, j6) {
            Some(x) => x,
            None => { return None },
        };
        if tn > 255 {
            return None;
        }
        let threads = tn as u8;
        let (site_token, j8) = match parse_opt_str_field(s, j7, ",\"site_token\":\"") {
            Some(x) => x,
            None => { return None },
        };
        let (user_agent_hint, j9) = match parse_opt_str_field(s, j8, ",\"user_agent_hint\":\"") {
            Some(x) => x,
            None => { return None },
        };
        let (supports_binary, j10) = match parse_opt_bool_field(s, j9, ",\"supports_binary\":") {
            Some(x) => x,
            None => { return None },
        };
        let (randomx_mode, j11) = match parse_opt_str_field(s, j10, ",\"randomx_mode\":\"") {
            Some(x) => x,
            None => { return None },
        };
        let j12 = match expect_lit(s, j11, "}}") {
            Some(x) => x,
            None => { return None },
        };
        if j12 != n {
            return None;
        }
        let m = ClientMessage::Hello {
            v,
            id,
            payload: HelloPayload {
                miner_version,
                threads,
                site_token,
                user_agent_hint,
                supports_binary,
                randomx_mode,
            },
        };
        proof {
            assert(s@.subrange(0, j1 as int) =~= Seq::<char>::empty() + s@.subrange(0, j1 as int));
            lemma_chain(s@, 0, j1 as int, j2 as int);
            lemma_chain(s@, 0, j2 as int, j3 as int);
            lemma_chain(s@, 0, j3 as int, j4 as int);
            lemma_chain(s@, 0, j4 as int, j5 as int);
            lemma_chain(s@, 0, j5 as int, j6 as int);
            lemma_chain(s@, 0, j6 as int, j7 as int);
            lemma_chain(s@, 0, j7 as int, j8 as int);
            lemma_chain(s@, 0, j8 as int, j9 as int);
            lemma_chain(s@, 0, j9 as int, j10 as int);
            lemma_chain(s@, 0, j10 as int, j11 as int);
            lemma_chain(s@, 0, j11 as int, j12 as int);
            assert(s@.subrange(0, n as int) =~= s@);
            assert(s@ == spec_ser_client(m));
        }
        return Some(m);
    }
    if let Some(j1) = expect_lit(s, 0, "{\"type\":\"submit\",\"v\":") {
        let (vn, j2) = match parse_u64_at(s, j1) {
            Some(x) => x,
            None => { return None },
        };
        if vn > 255 {
            return None;
        }
        let v = vn as u8;
        let j3 = match expect_lit(s, j2, ",\"id\":\"") {
            Some(x) => x,
            None => { return None },
        };
        let (id, j4) = match parse_str_body(s, j3) {
            Some(x) => x,
            None => { return None },
        };
        let j5 = match expect_lit(s, j4, ",\"payload\":{\"job_id\":\"") {
            Some(x) => x,
            None => { return None },
        };
        let (job_id, j6) = match parse_str_body(s, j5) {
            Some(x) => x,
            None => { return None },
        };
        let j7 = match expect_lit(s, j6, ",\"nonce\":\"") {
            Some(x) => x,
            None => { return None },
        };
        let (nonce, j8) = match parse_str_body(s, j7) {
            Some(x) => x,
            None => { return None },
        };
        let j9 = match expect_lit(s, j8, "}}") {
            Some(x) => x,
            None => { return None },
        };
        if j9 != n {
            return None;
        }
        let m = ClientMessage::Submit { v, id, payload: SubmitPayload { job_id, nonce } };
        proof {
            assert(s@.subrange(0, j1 as int) =~= Seq::<char>::empty() + s@.subrange(0, j1 as int));
            lemma_chain(s@, 0, j1 as int, j2 as int);
            lemma_chain(s@, 0, j2 as int, j3 as int);
            lemma_chain(s@, 0, j3 as int, j4 as int);
            lemma_chain(s@, 0, j4 as int, j5 as int);
            lemma_chain(s@, 0, j5 as int, j6 as int);
            lemma_chain(s@, 0, j6 as int, j7 as int);
            lemma_chain(s@, 0, j7 as int, j8 as int);
            lemma_chain(s@, 0, j8 as int, j9 as int);
            assert(s@.subrange(0, n as int) =~= s@);
            assert(s@ == spec_ser_client(m));
        }
        return Some(m);
    }
    if let Some(j1) = expect_lit(s, 0, "{\"type\":\"share\",\"v\":") {
        let (vn, j2) = match parse_u64_at(s, j1) {
            Some(x) => x,
            None => { return None },
        };
        if vn > 255 {
            return None;
        }
        let v = vn as u8;
        let (id, j3) = match parse_opt_str_field(s, j2, ",\"id\":\"") {
            Some(x) => x,
            None => { return None },
        };
        let j4 = match expect_lit(s, j3, ",\"payload\":{\"job_id\":\"") {
            Some(x) => x,
            None => { return None },
        };
        let (job_id, j5) = match parse_str_body(s, j4) {
            Some(x) => x,
            None => { return None },
        };
        let j6 = match expect_lit(s, j5, ",\"nonce\":") {
            Some(x) => x,
            None => { return None },
        };
        let (nn, j7) = match parse_u64_at(s, j6) {
            Some(x) => x,
            None => { return None },
        };
        if nn > 0xffffffff {
            return None;
        }
        let nonce = nn as u32;
        let j8 = match expect_lit(s, j7, ",\"result_hash_hex\":\"") {
            Some(x) => x,
            None => { return None },
        };
        let (result_hash_hex, j9) = match parse_str_body(s, j8) {
            Some(x) => x,
            None => { return None },
        };
        let j10 = match expect_lit(s, j9, "}}") {
            Some(x) => x,
            None => { return None },
        };
        if j10 != n {
            return None;
        }
        let m = ClientMessage::Share {
            v,
            id,
            payload: SharePayload { job_id, nonce, result_hash_hex },
        };
        proof {
            assert(s@.subrange(0, j1 as int) =~= Seq::<char>::empty() + s@.subrange(0, j1 as int));
            lemma_chain(s@, 0, j1 as int, j2 as int);
            lemma_chain(s@, 0, j2 as int, j3 as int);
            lemma_chain(s@, 0, j3 as int, j4 as int);
            lemma_chain(s@, 0, j4 as int, j5 as int);
            lemma_chain(s@, 0, j5 as int, j6 as int);
            lemma_chain(s@, 0, j6 as int, j7 as int);
            lemma_chain(s@, 0, j7 as int, j8 as int);
            lemma_chain(s@, 0, j8 as int, j9 as int);
            lemma_chain(s@, 0, j9 as int, j10 as int);
            assert(s@.subrange(0, n as int) =~= s@);
            assert(s@ == spec_ser_client(m));
        }
        return Some(m);
    }
    if let Some(j1) = expect_lit(s, 0, "{\"type\":\"ping\",\"v\":") {
        let (vn, j2) = match parse_u64_at(s, j1) {
            Some(x) => x,
            None => { return None },
        };
        if vn > 255 {
            return None;
        }
        let v = vn as u8;
        let j3 = match expect_lit(s, j2, ",\"id\":\"") {
            Some(x) => x,
            None => { return None },
        };
        let (id, j4) = match parse_str_body(s, j3) {
            Some(x) => x,
            None => { return None },
        };
        let j5 = match expect_lit(s, j4, ",\"payload\":{}}") {
            Some(x) => x,
            None => { return None },
        };
        if j5 != n {
            return None;
        }
        let m = ClientMessage::Ping { v, id, payload: PingPayload {  } };
        proof {
            assert(s@.subrange(0, j1 as int) =~= Seq::<char>::empty() + s@.subrange(0, j1 as int));
            lemma_chain(s@, 0, j1 as int, j2 as int);
            lemma_chain(s@, 0, j2 as int, j3 as int);
            lemma_chain(s@, 0, j3 as int, j4 as int);
            lemma_chain(s@, 0, j4 as int, j5 as int);
            assert(s@.subrange(0, n as int) =~= s@);
            assert(s@ == spec_ser_client(m));
        }
        return Some(m);
    }
    None
}


/// The status name with the string's closing quote.
pub open spec fn status_unit(st: SubmitStatus) -> Seq<char> {
    match st {
        SubmitStatus::Accepted => "ACCEPTED\""@,
        SubmitStatus::Rejected => "REJECTED\""@,
        SubmitStatus::Stale => "STALE\""@,
        SubmitStatus::Error => "ERROR\""@,
    }
}

/// The error-code name with the string's closing quote.
pub open spec fn code_unit(c: ErrorCode) -> Seq<char> {
    match c {
        ErrorCode::BadFormat => "BAD_FORMAT\""@,
        ErrorCode::Unauthorized => "UNAUTHORIZED\""@,
        ErrorCode::RateLimit => "RATE_LIMIT\""@,
        ErrorCode::StaleJob => "STALE_JOB\""@,
        ErrorCode::BadJob => "BAD_JOB\""@,
        ErrorCode::BadReserved => "BAD_RESERVED\""@,
        ErrorCode::BadPow => "BAD_POW\""@,
        ErrorCode::Internal => "INTERNAL\""@,
        ErrorCode::RpcDown => "RPC_DOWN\""@,
    }
}

/// The bare status name, as it stands inside the frame.
pub fn status_name(st: SubmitStatus) -> (r: String)
    ensures
        r@.push('"') == status_unit(st),
{
    let r = match st {
        SubmitStatus::Accepted => String::from_str("ACCEPTED"),
        SubmitStatus::Rejected => String::from_str("REJECTED"),
        SubmitStatus::Stale => String::from_str("STALE"),
        SubmitStatus::Error => String::from_str("ERROR"),
    };
    proof {
        reveal_strlit("ACCEPTED");
        reveal_strlit("ACCEPTED\"");
        reveal_strlit("REJECTED");
        reveal_strlit("REJECTED\"");
        reveal_strlit("STALE");
        reveal_strlit("STALE\"");
        reveal_strlit("ERROR");
        reveal_strlit("ERROR\"");
        assert(r@.push('"') =~= status_unit(st));
    }
    r
}

/// The bare error-code name, as it stands inside the frame.
pub fn error_code_name(c: ErrorCode) -> (r: String)
    ensures
        r@.push('"') == code_unit(c),
{
    let r = match c {
        ErrorCode::BadFormat => String::from_str("BAD_FORMAT"),
        ErrorCode::Unauthorized => String::from_str("UNAUTHORIZED"),
        ErrorCode::RateLimit => String::from_str("RATE_LIMIT"),
        ErrorCode::StaleJob => String::from_str("STALE_JOB"),
        ErrorCode::BadJob => String::from_str("BAD_JOB"),
        ErrorCode::BadReserved => String::from_str("BAD_RESERVED"),
        ErrorCode::BadPow => String::from_str("BAD_POW"),
        ErrorCode::Internal => String::from_str("INTERNAL"),
        ErrorCode::RpcDown => String::from_str("RPC_DOWN"),
    };
    proof {
        reveal_strlit("BAD_FORMAT");
        reveal_strlit("BAD_FORMAT\"");
        reveal_strlit("UNAUTHORIZED");
        reveal_strlit("UNAUTHORIZED\"");
        reveal_strlit("RATE_LIMIT");
        reveal_strlit("RATE_LIMIT\"");
        reveal_strlit("STALE_JOB");
        reveal_strlit("STALE_JOB\"");
        reveal_strlit("BAD_JOB");
        reveal_strlit("BAD_JOB\"");
        reveal_strlit("BAD_RESERVED");
        reveal_strlit("BAD_RESERVED\"");
        reveal_strlit("BAD_POW");
        reveal_strlit("BAD_POW\"");
        reveal_strlit("INTERNAL");
        reveal_strlit("INTERNAL\"");
        reveal_strlit("RPC_DOWN");
        reveal_strlit("RPC_DOWN\"");
        assert(r@.push('"') =~= code_unit(c));
    }
    r
}

/// The canonical print of a server message.
pub open spec fn spec_ser_server(m: ServerMessage) -> Seq<char> {
    match m {
        ServerMessage::Stats { v, id, payload } => Seq::empty() + "{\"type\":\"stats\",\"v\":"@
            + dec_u64(v as nat) + opt_str_field(",\"id\":\""@, opt_view(id))
            + ",\"payload\":{\"session_id\":\""@ + jstr_body(payload.session_id@)
            + ",\"submits_per_minute\":"@ + dec_u64(payload.submits_per_minute as nat)
            + ",\"messages_per_second\":"@ + dec_u64(payload.messages_per_second as nat)
            + ",\"policy\":{\"job_ttl_ms\":"@ + dec_u64(payload.policy.job_ttl_ms as nat)
            + ",\"max_submits_per_min\":"@ + dec_u64(payload.policy.max_submits_per_min as nat)
            + ",\"max_shares_per_min\":"@ + dec_u64(payload.policy.max_shares_per_min as nat)
            + "},\"server_time_ms\":"@ + dec_u64(payload.server_time_ms as nat)
            + ",\"tip_height\":"@ + dec_u64(payload.tip_height as nat) + "}}"@,
        ServerMessage::Job { v, id, payload } => Seq::empty() + "{\"type\":\"job\",\"v\":"@
            + dec_u64(v as nat) + opt_str_field(",\"id\":\""@, opt_view(id))
            + ",\"payload\":{\"job_id\":\""@ + jstr_body(payload.job_id@) + ",\"blob_hex\":\""@
            + jstr_body(payload.blob_hex@) + ",\"reserved_offset\":"@ + dec_u64(
            payload.reserved_offset as nat,
        ) + ",\"reserved_value_hex\":\""@ + jstr_body(payload.reserved_value_hex@)
            + ",\"target_hex\":\""@ + jstr_body(payload.target_hex@) + ",\"height\":"@ + dec_u64(
            payload.height as nat,
        ) + ",\"seed_hash\":\""@ + jstr_body(payload.seed_hash@) + ",\"expires_at_ms\":"@
            + dec_u64(payload.expires_at_ms as nat) + opt_str_field(
            ",\"share_target_hex\":\""@,
            opt_view(payload.share_target_hex),
        ) + ",\"algo\":\""@ + jstr_body(payload.algo@) + "}}"@,
        ServerMessage::SubmitResult { v, id, payload } => Seq::empty()
            + "{\"type\":\"submit_result\",\"v\":"@ + dec_u64(v as nat) + ",\"id\":\""@
            + jstr_body(id@) + ",\"payload\":{\"status\":\""@ + status_unit(payload.status)
            + opt_str_field(",\"message\":\""@, opt_view(payload.message)) + "}}"@,
        ServerMessage::Error { v, id, payload } => Seq::empty() + "{\"type\":\"error\",\"v\":"@
            + dec_u64(v as nat) + opt_str_field(",\"id\":\""@, opt_view(id))
            + ",\"payload\":{\"code\":\""@ + code_unit(payload.code) + ",\"message\":\""@
            + jstr_body(payload.message@) + "}}"@,
        ServerMessage::Pong { v, id, payload } => Seq::empty() + "{\"type\":\"pong\",\"v\":"@
            + dec_u64(v as nat) + ",\"id\":\""@ + jstr_body(id@) + ",\"payload\":{}}"@,
    }
}

fn write_status_unit(out: &mut String, st: SubmitStatus)
    ensures
        final (out)@ == old(out)@ + status_unit(st),
{
    match st {
        SubmitStatus::Accepted => out.append("ACCEPTED\""),
        SubmitStatus::Rejected => out.append("REJECTED\""),
        SubmitStatus::Stale => out.append("STALE\""),
        SubmitStatus::Error => out.append("ERROR\""),
    }
}

fn write_code_unit(out: &mut String, c: ErrorCode)
    ensures
        final (out)@ == old(out)@ + code_unit(c),
{
    match c {
        ErrorCode::BadFormat => out.append("BAD_FORMAT\""),
        ErrorCode::Unauthorized => out.append("UNAUTHORIZED\""),
        ErrorCode::RateLimit => out.append("RATE_LIMIT\""),
        ErrorCode::StaleJob => out.append("STALE_JOB\""),
        ErrorCode::BadJob => out.append("BAD_JOB\""),
        ErrorCode::BadReserved => out.append("BAD_RESERVED\""),
        ErrorCode::BadPow => out.append("BAD_POW\""),
        ErrorCode::Internal => out.append("INTERNAL\""),
        ErrorCode::RpcDown => out.append("RPC_DOWN\""),
    }
}

/// Prints a server message in canonical form.
pub fn serialize_server(m: &ServerMessage) -> (r: String)
    ensures
        r@ == spec_ser_server(*m),
{
    let mut out = String::new();
    match m {
        ServerMessage::Stats { v, id, payload } => {
            out.append("{\"type\":\"stats\",\"v\":");
            write_u64(&mut out, *v as u64);
            write_opt_str_field(&mut out, ",\"id\":\"", id);
            out.append(",\"payload\":{\"session_id\":\"");
            write_str_body(&mut out, payload.session_id.as_str());
            out.append(",\"submits_per_minute\":");
            write_u64(&mut out, payload.submits_per_minute as u64);
            out.append(",\"messages_per_second\":");
            write_u64(&mut out, payload.messages_per_second as u64);
            out.append(",\"policy\":{\"job_ttl_ms\":");
            write_u64(&mut out, payload.policy.job_ttl_ms);
            out.append(",\"max_submits_per_min\":");
            write_u64(&mut out, payload.policy.max_submits_per_min as u64);
            out.append(",\"max_shares_per_min\":");
            write_u64(&mut out, payload.policy.max_shares_per_min as u64);
            out.append("},\"server_time_ms\":");
            write_u64(&mut out, payload.server_time_ms);
            out.append(",\"tip_height\":");
            write_u64(&mut out, payload.tip_height);
            out.append("}}");
        },
        ServerMessage::Job { v, id, payload } => {
            out.append("{\"type\":\"job\",\"v\":");
            write_u64(&mut out, *v as u64);
            write_opt_str_field(&mut out, ",\"id\":\"", id);
            out.append(",\"payload\":{\"job_id\":\"");
            write_str_body(&mut out, payload.job_id.as_str());
            out.append(",\"blob_hex\":\"");
            write_str_body(&mut out, payload.blob_hex.as_str());
            out.append(",\"reserved_offset\":");
            write_u64(&mut out, payload.reserved_offset as u64);
            out.append(",\"reserved_value_hex\":\"");
            write_str_body(&mut out, payload.reserved_value_hex.as_str());
            out.append(",\"target_hex\":\"");
            write_str_body(&mut out, payload.target_hex.as_str());
            out.append(",\"height\":");
            write_u64(&mut out, payload.height);
            out.append(",\"seed_hash\":\"");
            write_str_body(&mut out, payload.seed_hash.as_str());
            out.append(",\"expires_at_ms\":");
            write_u64(&mut out, payload.expires_at_ms);
            write_opt_str_field(&mut out, ",\"share_target_hex\":\"", &payload.share_target_hex);
            out.append(",\"algo\":\"");
            write_str_body(&mut out, payload.algo.as_str());
            out.append("}}");
        },
        ServerMessage::SubmitResult { v, id, payload } => {
            out.append("{\"type\":\"submit_result\",\"v\":");
            write_u64(&mut out, *v as u64);
            out.append(",\"id\":\"");
            write_str_body(&mut out, id.as_str());
            out.append(",\"payload\":{\"status\":\"");
            write_status_unit(&mut out, payload.status);
            write_opt_str_field(&mut out, ",\"message\":\"", &payload.message);
            out.append("}}");
        },
        ServerMessage::Error { v, id, payload } => {
            out.append("{\"type\":\"error\",\"v\":");
            write_u64(&mut out, *v as u64);
            write_opt_str_field(&mut out, ",\"id\":\"", id);
            out.append(",\"payload\":{\"code\":\"");
            write_code_unit(&mut out, payload.code);
            out.append(",\"message\":\"");
            write_str_body(&mut out, payload.message.as_str());
            out.append("}}");
        },
        ServerMessage::Pong { v, id, payload } => {
            out.append("{\"type\":\"pong\",\"v\":");
            write_u64(&mut out, *v as u64);
            out.append(",\"id\":\"");
            write_str_body(&mut out, id.as_str());
            out.append(",\"payload\":{}}");
        },
    }
    out
}

fn parse_status_unit(s: &str, i: usize) -> (r: Option<(SubmitStatus, usize)>)
    ensures
        r matches Some((st, j)) ==> i <= j <= s@.len() && s@.subrange(i as int, j as int)
            == status_unit(st),
{
    if let Some(j) = expect_lit(s, i, "ACCEPTED\"") {
        Some((SubmitStatus::Accepted, j))
    } else if let Some(j) = expect_lit(s, i, "REJECTED\"") {
        Some((SubmitStatus::Rejected, j))
    } else if let Some(j) = expect_lit(s, i, "STALE\"") {
        Some((SubmitStatus::Stale, j))
    } else if let Some(j) = expect_lit(s, i, "ERROR\"") {
        Some((SubmitStatus::Error, j))
    } else {
        None
    }
}

fn parse_code_unit(s: &str, i: usize) -> (r: Option<(ErrorCode, usize)>)
    ensures
        r matches Some((c, j)) ==> i <= j <= s@.len() && s@.subrange(i as int, j as int)
            == code_unit(c),
{
    if let Some(j) = expect_lit(s, i, "BAD_FORMAT\"") {
        Some((ErrorCode::BadFormat, j))
    } else if let Some(j) = expect_lit(s, i, "UNAUTHORIZED\"") {
        Some((ErrorCode::Unauthorized, j))
    } else if let Some(j) = expect_lit(s, i, "RATE_LIMIT\"") {
        Some((ErrorCode::RateLimit, j))
    } else if let Some(j) = expect_lit(s, i, "STALE_JOB\"") {
        Some((ErrorCode::StaleJob, j))
    } else if let Some(j) = expect_lit(s, i, "BAD_JOB\"") {
        Some((ErrorCode::BadJob, j))
    } else if let Some(j) = expect_lit(s, i, "BAD_RESERVED\"") {
        Some((ErrorCode::BadReserved, j))
    } else if let Some(j) = expect_lit(s, i, "BAD_POW\"") {
        Some((ErrorCode::BadPow, j))
    } else if let Some(j) = expect_lit(s, i, "INTERNAL\"") {
        Some((ErrorCode::Internal, j))
    } else if let Some(j) = expect_lit(s, i, "RPC_DOWN\"") {
        Some((ErrorCode::RpcDown, j))
    } else {
        None
    }
}

/// Parses a server message in canonical form: on success the input is
/// exactly the returned message's canonical print.
#[verifier::rlimit(100)]
pub fn parse_server(s: &str) -> (r: Option<ServerMessage>)
    ensures
        r matches Some(m) ==> s@ == spec_ser_server(m),
{
    let n = s.unicode_len();
    if let Some(j1) = expect_lit(s, 0, "{\"type\":\"stats\",\"v\":") {
        let (vn, j2) = match parse_u64_at(s, j1) {
            Some(x) => x,
            None => { return None },
        };
        if vn > 255 {
            return None;
        }
        let v = vn as u8;
        let (id, j3) = match parse_opt_str_field(s, j2, ",\"id\":\"") {
            Some(x) => x,
            None => { return None },
        };
        let j4 = match expect_lit(s, j3, ",\"payload\":{\"session_id\":\"") {
            Some(x) => x,
            None => { return None },
        };
        let (session_id, j5) = match parse_str_body(s, j4) {
            Some(x) => x,
            None => { return None },
        };
        let j6 = match expect_lit(s, j5, ",\"submits_per_minute\":") {
            Some(x) => x,
            None => { return None },
        };
        let (spm, j7) = match parse_u64_at(s, j6) {
            Some(x) => x,
            None => { return None },
        };
        if spm > 0xffffffff {
            return None;
        }
        let j8 = match expect_lit(s, j7, ",\"messages_per_second\":") {
            Some(x) => x,
            None => { return None },
        };
        let (mps, j9) = match parse_u64_at(s, j8) {
            Some(x) => x,
            None => { return None },
        };
        if mps > 0xffffffff {
            return None;
        }
        let j10 = match expect_lit(s, j9, ",\"policy\":{\"job_ttl_ms\":") {
            Some(x) => x,
            None => { return None },
        };
        let (ttl, j11) = match parse_u64_at(s, j10) {
            Some(x) => x,
            None => { return None },
        };
        let j12 = match expect_lit(s, j11, ",\"max_submits_per_min\":") {
            Some(x) => x,
            None => { return None },
        };
        let (mspm, j13) = match parse_u64_at(s, j12) {
            Some(x) => x,
            None => { return None },
        };
        if mspm > 0xffffffff {
            return None;
        }
        let j14 = match expect_lit(s, j13, ",\"max_shares_per_min\":") {
            Some(x) => x,
            None => { return None },
        };
        let (mhpm, j15) = match parse_u64_at(s, j14) {
            Some(x) => x,
            None => { return None },
        };
        if mhpm > 0xffffffff {
            return None;
        }
        let j16 = match expect_lit(s, j15, "},\"server_time_ms\":") {
            Some(x) => x,
            None => { return None },
        };
        let (stm, j17) = match parse_u64_at(s, j16) {
            Some(x) => x,
            None => { return None },
        };
        let j18 = match expect_lit(s, j17, ",\"tip_height\":") {
            Some(x) => x,
            None => { return None },
        };
        let (tip, j19) = match parse_u64_at(s, j18) {
            Some(x) => x,
            None => { return None },
        };
        let j20 = match expect_lit(s, j19, "}}") {
            Some(x) => x,
            None => { return None },
        };
        if j20 != n {
            return None;
        }
        let m = ServerMessage::Stats {
            v,
            id,
            payload: StatsPayload {
                session_id,
                submits_per_minute: spm as u32,
                messages_per_second: mps as u32,
                policy: PolicyPayload {
                    job_ttl_ms: ttl,
                    max_submits_per_min: mspm as u32,
                    max_shares_per_min: mhpm as u32,
                },
                server_time_ms: stm,
                tip_height: tip,
            },
        };
        proof {
            assert(s@.subrange(0, j1 as int) =~= Seq::<char>::empty() + s@.subrange(0, j1 as int));
            lemma_chain(s@, 0, j1 as int, j2 as int);
            lemma_chain(s@, 0, j2 as int, j3 as int);
            lemma_chain(s@, 0, j3 as int, j4 as int);
            lemma_chain(s@, 0, j4 as int, j5 as int);
            lemma_chain(s@, 0, j5 as int, j6 as int);
            lemma_chain(s@, 0, j6 as int, j7 as int);
            lemma_chain(s@, 0, j7 as int, j8 as int);
            lemma_chain(s@, 0, j8 as int, j9 as int);
            lemma_chain(s@, 0, j9 as int, j10 as int);
            lemma_chain(s@, 0, j10 as int, j11 as int);
            lemma_chain(s@, 0, j11 as int, j12 as int);
            lemma_chain(s@, 0, j12 as int, j13 as int);
            lemma_chain(s@, 0, j13 as int, j14 as int);
            lemma_chain(s@, 0, j14 as int, j15 as int);
            lemma_chain(s@, 0, j15 as int, j16 as int);
            lemma_chain(s@, 0, j16 as int, j17 as int);
            lemma_chain(s@, 0, j17 as int, j18 as int);
            lemma_chain(s@, 0, j18 as int, j19 as int);
            lemma_chain(s@, 0, j19 as int, j20 as int);
            assert(s@.subrange(0, n as int) =~= s@);
            assert(s@ == spec_ser_server(m));
        }
        return Some(m);
    }
    if let Some(j1) = expect_lit(s, 0, "{\"type\":\"job\",\"v\":") {
        let (vn, j2) = match parse_u64_at(s, j1) {
            Some(x) => x,
            None => { return None },
        };
        if vn > 255 {
            return None;
        }
        let v = vn as u8;
        let (id, j3) = match parse_opt_str_field(s, j2, ",\"id\":\"") {
            Some(x) => x,
            None => { return None },
        };
        let j4 = match expect_lit(s, j3, ",\"payload\":{\"job_id\":\"") {
            Some(x) => x,
            None => { return None },
        };
        let (job_id, j5) = match parse_str_body(s, j4) {
            Some(x) => x,
            None => { return None },
        };
        let j6 = match expect_lit(s, j5, ",\"blob_hex\":\"") {
            Some(x) => x,
            None => { return None },
        };
        let (blob_hex, j7) = match parse_str_body(s, j6) {
            Some(x) => x,
            None => { return None },
        };
        let j8 = match expect_lit(s, j7, ",\"reserved_offset\":") {
            Some(x) => x,
            None => { return None },
        };
        let (ro, j9) = match parse_u64_at(s, j8) {
            Some(x) => x,
            None => { return None },
        };
        if ro > (usize::MAX as u64) {
            return None;
        }
        let j10 = match expect_lit(s, j9, ",\"reserved_value_hex\":\"") {
            Some(x) => x,
            None => { return None },
        };
        let (reserved_value_hex, j11) = match parse_str_body(s, j10) {
            Some(x) => x,
            None => { return None },
        };
        let j12 = match expect_lit(s, j11, ",\"target_hex\":\"") {
            Some(x) => x,
            None => { return None },
        };
        let (target_hex, j13) = match parse_str_body(s, j12) {
            Some(x) => x,
            None => { return None },
        };
        let j14 = match expect_lit(s, j13, ",\"height\":") {
            Some(x) => x,
            None => { return None },
        };
        let (height, j15) = match parse_u64_at(s, j14) {
            Some(x) => x,
            None => { return None },
        };
        let j16 = match expect_lit(s, j15, ",\"seed_hash\":\"") {
            Some(x) => x,
            None => { return None },
        };
        let (seed_hash, j17) = match parse_str_body(s, j16) {
            Some(x) => x,
            None => { return None },
        };
        let j18 = match expect_lit(s, j17, ",\"expires_at_ms\":") {
            Some(x) => x,
            None => { return None },
        };
        let (exp, j19) = match parse_u64_at(s, j18) {
            Some(x) => x,
            None => { return None },
        };
        let (share_target_hex, j20) = match parse_opt_str_field(
            s,
            j19,
            ",\"share_target_hex\":\"",
        ) {
            Some(x) => x,
            None => { return None },
        };
        let j21 = match expect_lit(s, j20, ",\"algo\":\"") {
            Some(x) => x,
            None => { return None },
        };
        let (algo, j22) = match parse_str_body(s, j21) {
            Some(x) => x,
            None => { return None },
        };
        let j23 = match expect_lit(s, j22, "}}") {
            Some(x) => x,
            None => { return None },
        };
        if j23 != n {
            return None;
        }
        let m = ServerMessage::Job {
            v,
            id,
            payload: JobPayload {
                job_id,
                blob_hex,
                reserved_offset: ro as usize,
                reserved_value_hex,
                target_hex,
                height,
                seed_hash,
                expires_at_ms: exp,
                share_target_hex,
                algo,
            },
        };
        proof {
            assert(s@.subrange(0, j1 as int) =~= Seq::<char>::empty() + s@.subrange(0, j1 as int));
            lemma_chain(s@, 0, j1 as int, j2 as int);
            lemma_chain(s@, 0, j2 as int, j3 as int);
            lemma_chain(s@, 0, j3 as int, j4 as int);
            lemma_chain(s@, 0, j4 as int, j5 as int);
            lemma_chain(s@, 0, j5 as int, j6 as int);
            lemma_chain(s@, 0, j6 as int, j7 as int);
            lemma_chain(s@, 0, j7 as int, j8 as int);
            lemma_chain(s@, 0, j8 as int, j9 as int);
            lemma_chain(s@, 0, j9 as int, j10 as int);
            lemma_chain(s@, 0, j10 as int, j11 as int);
            lemma_chain(s@, 0, j11 as int, j12 as int);
            lemma_chain(s@, 0, j12 as int, j13 as int);
            lemma_chain(s@, 0, j13 as int, j14 as int);
            lemma_chain(s@, 0, j14 as int, j15 as int);
            lemma_chain(s@, 0, j15 as int, j16 as int);
            lemma_chain(s@, 0, j16 as int, j17 as int);
            lemma_chain(s@, 0, j17 as int, j18 as int);
            lemma_chain(s@, 0, j18 as int, j19 as int);
            lemma_chain(s@, 0, j19 as int, j20 as int);
            lemma_chain(s@, 0, j20 as int, j21 as int);
            lemma_chain(s@, 0, j21 as int, j22 as int);
            lemma_chain(s@, 0, j22 as int, j23 as int);
            assert(s@.subrange(0, n as int) =~= s@);
            assert(s@ == spec_ser_server(m));
        }
        return Some(m);
    }
    if let Some(j1) = expect_lit(s, 0, "{\"type\":\"submit_result\",\"v\":") {
        let (vn, j2) = match parse_u64_at(s, j1) {
            Some(x) => x,
            None => { return None },
        };
        if vn > 255 {
            return None;
        }
        let v = vn as u8;
        let j3 = match expect_lit(s, j2, ",\"id\":\"") {
            Some(x) => x,
            None => { return None },
        };
        let (id, j4) = match parse_str_body(s, j3) {
            Some(x) => x,
            None => { return None },
        };
        let j5 = match expect_lit(s, j4, ",\"payload\":{\"status\":\"") {
            Some(x) => x,
            None => { return None },
        };
        let (status, j6) = match parse_status_unit(s, j5) {
            Some(x) => x,
            None => { return None },
        };
        let (message, j7) = match parse_opt_str_field(s, j6, ",\"message\":\"") {
            Some(x) => x,
            None => { return None },
        };
        let j8 = match expect_lit(s, j7, "}}") {
            Some(x) => x,
            None => { return None },
        };
        if j8 != n {
            return None;
        }
        let m = ServerMessage::SubmitResult {
            v,
            id,
            payload: SubmitResultPayload { status, message },
        };
        proof {
            assert(s@.subrange(0, j1 as int) =~= Seq::<char>::empty() + s@.subrange(0, j1 as int));
            lemma_chain(s@, 0, j1 as int, j2 as int);
            lemma_chain(s@, 0, j2 as int, j3 as int);
            lemma_chain(s@, 0, j3 as int, j4 as int);
            lemma_chain(s@, 0, j4 as int, j5 as int);
            lemma_chain(s@, 0, j5 as int, j6 as int);
            lemma_chain(s@, 0, j6 as int, j7 as int);
            lemma_chain(s@, 0, j7 as int, j8 as int);
            assert(s@.subrange(0, n as int) =~= s@);
            assert(s@ == spec_ser_server(m));
        }
        return Some(m);
    }
    if let Some(j1) = expect_lit(s, 0, "{\"type\":\"error\",\"v\":") {
        let (vn, j2) = match parse_u64_at(s, j1) {
            Some(x) => x,
            None => { return None },
        };
        if vn > 255 {
            return None;
        }
        let v = vn as u8;
        let (id, j3) = match parse_opt_str_field(s, j2, ",\"id\":\"") {
            Some(x) => x,
            None => { return None },
        };
        let j4 = match expect_lit(s, j3, ",\"payload\":{\"code\":\"") {
            Some(x) => x,
            None => { return None },
        };
        let (code, j5) = match parse_code_unit(s, j4) {
            Some(x) => x,
            None => { return None },
        };
        let j6 = match expect_lit(s, j5, ",\"message\":\"") {
            Some(x) => x,
            None => { return None },
        };
        let (message, j7) = match parse_str_body(s, j6) {
            Some(x) => x,
            None => { return None },
        };
        let j8 = match expect_lit(s, j7, "}}") {
            Some(x) => x,
            None => { return None },
        };
        if j8 != n {
            return None;
        }
        let m = ServerMessage::Error { v, id, payload: ErrorPayload { code, message } };
        proof {
            assert(s@.subrange(0, j1 as int) =~= Seq::<char>::empty() + s@.subrange(0, j1 as int));
            lemma_chain(s@, 0, j1 as int, j2 as int);
            lemma_chain(s@, 0, j2 as int, j3 as int);
            lemma_chain(s@, 0, j3 as int, j4 as int);
            lemma_chain(s@, 0, j4 as int, j5 as int);
            lemma_chain(s@, 0, j5 as int, j6 as int);
            lemma_chain(s@, 0, j6 as int, j7 as int);
            lemma_chain(s@, 0, j7 as int, j8 as int);
            assert(s@.subrange(0, n as int) =~= s@);
            assert(s@ == spec_ser_server(m));
        }
        return Some(m);
    }
    if let Some(j1) = expect_lit(s, 0, "{\"type\":\"pong\",\"v\":") {
        let (vn, j2) = match parse_u64_at(s, j1) {
            Some(x) => x,
            None => { return None },
        };
        if vn > 255 {
            return None;
        }
        let v = vn as u8;
        let j3 = match expect_lit(s, j2, ",\"id\":\"") {
            Some(x) => x,
            None => { return None },
        };
        let (id, j4) = match parse_str_body(s, j3) {
            Some(x) => x,
            None => { return None },
        };
        let j5 = match expect_lit(s, j4, ",\"payload\":{}}") {
            Some(x) => x,
            None => { return None },
        };
        if j5 != n {
            return None;
        }
        let m = ServerMessage::Pong { v, id, payload: PongPayload {  } };
        proof {
            assert(s@.subrange(0, j1 as int) =~= Seq::<char>::empty() + s@.subrange(0, j1 as int));
            lemma_chain(s@, 0, j1 as int, j2 as int);
            lemma_chain(s@, 0, j2 as int, j3 as int);
            lemma_chain(s@, 0, j3 as int, j4 as int);
            lemma_chain(s@, 0, j4 as int, j5 as int);
            assert(s@.subrange(0, n as int) =~= s@);
            assert(s@ == spec_ser_server(m));
        }
        return Some(m);
    }
    None
}


/// Two client messages carry the same fields (up to string contents).
pub open spec fn client_msg_eq(m1: ClientMessage, m2: ClientMessage) -> bool {
    match (m1, m2) {
        (
            ClientMessage::Hello { v: v1, id: id1, payload: p1 },
            ClientMessage::Hello { v: v2, id: id2, payload: p2 },
        ) => v1 == v2 && opt_view(id1) == opt_view(id2) && p1.miner_version@ == p2.miner_version@
            && p1.threads == p2.threads && opt_view(p1.site_token) == opt_view(p2.site_token)
            && opt_view(p1.user_agent_hint) == opt_view(p2.user_agent_hint) && p1.supports_binary
            == p2.supports_binary && opt_view(p1.randomx_mode) == opt_view(p2.randomx_mode),
        (
            ClientMessage::Submit { v: v1, id: id1, payload: p1 },
            ClientMessage::Submit { v: v2, id: id2, payload: p2 },
        ) => v1 == v2 && id1@ == id2@ && p1.job_id@ == p2.job_id@ && p1.nonce@ == p2.nonce@,
        (
            ClientMessage::Share { v: v1, id: id1, payload: p1 },
            ClientMessage::Share { v: v2, id: id2, payload: p2 },
        ) => v1 == v2 && opt_view(id1) == opt_view(id2) && p1.job_id@ == p2.job_id@ && p1.nonce
            == p2.nonce && p1.result_hash_hex@ == p2.result_hash_hex@,
        (
            ClientMessage::Ping { v: v1, id: id1, payload: p1 },
            ClientMessage::Ping { v: v2, id: id2, payload: p2 },
        ) => v1 == v2 && id1@ == id2@,
        _ => false,
    }
}

/// The law behind the protocol round trip: the canonical print determines
/// the message.  Two client messages printing to the same frame agree in
/// their type and in every field, so a frame parsed back (the parser returns
/// only a message whose print is the frame) can only restore the original's
/// fields.
pub proof fn lemma_ser_client_injective(m1: ClientMessage, m2: ClientMessage)
    requires
        spec_ser_client(m1) == spec_ser_client(m2),
    ensures
        client_msg_eq(m1, m2),
{
    match (m1, m2) {
        (
            ClientMessage::Hello { v: v1, id: id1, payload: p1 },
            ClientMessage::Hello { v: v2, id: id2, payload: p2 },
        ) => {
            lemma_hello_parts(v1, id1, p1, v2, id2, p2, m1, m2);
        },
        (
            ClientMessage::Submit { v: v1, id: id1, payload: p1 },
            ClientMessage::Submit { v: v2, id: id2, payload: p2 },
        ) => {
            lemma_submit_parts(v1, id1, p1, v2, id2, p2, m1, m2);
        },
        (
            ClientMessage::Share { v: v1, id: id1, payload: p1 },
            ClientMessage::Share { v: v2, id: id2, payload: p2 },
        ) => {
            lemma_share_parts(v1, id1, p1, v2, id2, p2, m1, m2);
        },
        (
            ClientMessage::Ping { v: v1, id: id1, payload: p1 },
            ClientMessage::Ping { v: v2, id: id2, payload: p2 },
        ) => {
            lemma_ping_parts(v1, id1, p1, v2, id2, p2, m1, m2);
        },
        _ => {
            // Different message types: the tag characters at offsets 9 and
            // 10 of the two prints cannot both agree.
            lemma_client_tag_char(m1);
            lemma_client_tag_char(m2);
            assert(spec_ser_client(m1)[9] == spec_ser_client(m2)[9]);
            assert(spec_ser_client(m1)[10] == spec_ser_client(m2)[10]);
            assert(false);
        },
    }
}

/// The character at offset 9 of a client frame (the tag's first letter).
spec fn tag_char_client(m: ClientMessage) -> char {
    match m {
        ClientMessage::Hello { .. } => 'h',
        ClientMessage::Submit { .. } => 's',
        ClientMessage::Share { .. } => 's',
        ClientMessage::Ping { .. } => 'p',
    }
}

/// The character at offset 10 of a client frame (the tag's second letter).
spec fn tag_char2_client(m: ClientMessage) -> char {
    match m {
        ClientMessage::Hello { .. } => 'e',
        ClientMessage::Submit { .. } => 'u',
        ClientMessage::Share { .. } => 'h',
        ClientMessage::Ping { .. } => 'i',
    }
}

proof fn lemma_client_tag_char(m: ClientMessage)
    ensures
        spec_ser_client(m).len() > 10,
        spec_ser_client(m)[9] == tag_char_client(m),
        spec_ser_client(m)[10] == tag_char2_client(m),
{
    reveal_strlit("{\"type\":\"hello\",\"v\":");
    reveal_strlit("{\"type\":\"submit\",\"v\":");
    reveal_strlit("{\"type\":\"share\",\"v\":");
    reveal_strlit("{\"type\":\"ping\",\"v\":");
}

/// Right-associating a twenty-piece concatenation.
#[verifier::rlimit(100)]
#[verifier::spinoff_prover]
proof fn lemma_reassoc20(
    p1: Seq<char>,
    p2: Seq<char>,
    p3: Seq<char>,
    p4: Seq<char>,
    p5: Seq<char>,
    p6: Seq<char>,
    p7: Seq<char>,
    p8: Seq<char>,
    p9: Seq<char>,
    p10: Seq<char>,
    p11: Seq<char>,
    p12: Seq<char>,
    p13: Seq<char>,
    p14: Seq<char>,
    p15: Seq<char>,
    p16: Seq<char>,
    p17: Seq<char>,
    p18: Seq<char>,
    p19: Seq<char>,
    p20: Seq<char>,
)
    ensures
        (((((((((((((((((((p1 + p2) + p3) + p4) + p5) + p6) + p7) + p8) + p9) + p10) + p11) + p12) + p13) + p14) + p15) + p16) + p17) + p18) + p19) + p20) == (p1 + (p2 + (p3 + (p4 + (p5 + (p6 + (p7 + (p8 + (p9 + (p10 + (p11 + (p12 + (p13 + (p14 + (p15 + (p16 + (p17 + (p18 + (p19 + p20))))))))))))))))))),
{
    assert(((((((((((((((((((p1 + p2) + p3) + p4) + p5) + p6) + p7) + p8) + p9) + p10) + p11) + p12) + p13) + p14) + p15) + p16) + p17) + p18) + p19) + p20 =~= (((((((((((((((((p1 + p2) + p3) + p4) + p5) + p6) + p7) + p8) + p9) + p10) + p11) + p12) + p13) + p14) + p15) + p16) + p17) + p18) + (p19 + p20));
    assert((((((((((((((((((p1 + p2) + p3) + p4) + p5) + p6) + p7) + p8) + p9) + p10) + p11) + p12) + p13) + p14) + p15) + p16) + p17) + p18) + (p19 + p20) =~= ((((((((((((((((p1 + p2) + p3) + p4) + p5) + p6) + p7) + p8) + p9) + p10) + p11) + p12) + p13) + p14) + p15) + p16) + p17) + (p18 + (p19 + p20)));
    assert(((((((((((((((((p1 + p2) + p3) + p4) + p5) + p6) + p7) + p8) + p9) + p10) + p11) + p12) + p13) + p14) + p15) + p16) + p17) + (p18 + (p19 + p20)) =~= (((((((((((((((p1 + p2) + p3) + p4) + p5) + p6) + p7) + p8) + p9) + p10) + p11) + p12) + p13) + p14) + p15) + p16) + (p17 + (p18 + (p19 + p20))));
    assert((((((((((((((((p1 + p2) + p3) + p4) + p5) + p6) + p7) + p8) + p9) + p10) + p11) + p12) + p13) + p14) + p15) + p16) + (p17 + (p18 + (p19 + p20))) =~= ((((((((((((((p1 + p2) + p3) + p4) + p5) + p6) + p7) + p8) + p9) + p10) + p11) + p12) + p13) + p14) + p15) + (p16 + (p17 + (p18 + (p19 + p20)))));
    assert(((((((((((((((p1 + p2) + p3) + p4) + p5) + p6) + p7) + p8) + p9) + p10) + p11) + p12) + p13) + p14) + p15) + (p16 + (p17 + (p18 + (p19 + p20)))) =~= (((((((((((((p1 + p2) + p3) + p4) + p5) + p6) + p7) + p8) + p9) + p10) + p11) + p12) + p13) + p14) + (p15 + (p16 + (p17 + (p18 + (p19 + p20))))));
    assert((((((((((((((p1 + p2) + p3) + p4) + p5) + p6) + p7) + p8) + p9) + p10) + p11) + p12) + p13) + p14) + (p15 + (p16 + (p17 + (p18 + (p19 + p20))))) =~= ((((((((((((p1 + p2) + p3) + p4) + p5) + p6) + p7) + p8) + p9) + p10) + p11) + p12) + p13) + (p14 + (p15 + (p16 + (p17 + (p18 + (p19 + p20)))))));
    assert(((((((((((((p1 + p2) + p3) + p4) + p5) + p6) + p7) + p8) + p9) + p10) + p11) + p12) + p13) + (p14 + (p15 + (p16 + (p17 + (p18 + (p19 + p20)))))) =~= (((((((((((p1 + p2) + p3) + p4) + p5) + p6) + p7) + p8) + p9) + p10) + p11) + p12) + (p13 + (p14 + (p15 + (p16 + (p17 + (p18 + (p19 + p20))))))));
    assert((((((((((((p1 + p2) + p3) + p4) + p5) + p6) + p7) + p8) + p9) + p10) + p11) + p12) + (p13 + (p14 + (p15 + (p16 + (p17 + (p18 + (p19 + p20))))))) =~= ((((((((((p1 + p2) + p3) + p4) + p5) + p6) + p7) + p8) + p9) + p10) + p11) + (p12 + (p13 + (p14 + (p15 + (p16 + (p17 + (p18 + (p19 + p20)))))))));
    assert(((((((((((p1 + p2) + p3) + p4) + p5) + p6) + p7) + p8) + p9) + p10) + p11) + (p12 + (p13 + (p14 + (p15 + (p16 + (p17 + (p18 + (p19 + p20)))))))) =~= (((((((((p1 + p2) + p3) + p4) + p5) + p6) + p7) + p8) + p9) + p10) + (p11 + (p12 + (p13 + (p14 + (p15 + (p16 + (p17 + (p18 + (p19 + p20))))))))));
    assert((((((((((p1 + p2) + p3) + p4) + p5) + p6) + p7) + p8) + p9) + p10) + (p11 + (p12 + (p13 + (p14 + (p15 + (p16 + (p17 + (p18 + (p19 + p20))))))))) =~= ((((((((p1 + p2) + p3) + p4) + p5) + p6) + p7) + p8) + p9) + (p10 + (p11 + (p12 + (p13 + (p14 + (p15 + (p16 + (p17 + (p18 + (p19 + p20)))))))))));
    assert(((((((((p1 + p2) + p3) + p4) + p5) + p6) + p7) + p8) + p9) + (p10 + (p11 + (p12 + (p13 + (p14 + (p15 + (p16 + (p17 + (p18 + (p19 + p20)))))))))) =~= (((((((p1 + p2) + p3) + p4) + p5) + p6) + p7) + p8) + (p9 + (p10 + (p11 + (p12 + (p13 + (p14 + (p15 + (p16 + (p17 + (p18 + (p19 + p20))))))))))));
    assert((((((((p1 + p2) + p3) + p4) + p5) + p6) + p7) + p8) + (p9 + (p10 + (p11 + (p12 + (p13 + (p14 + (p15 + (p16 + (p17 + (p18 + (p19 + p20))))))))))) =~= ((((((p1 + p2) + p3) + p4) + p5) + p6) + p7) + (p8 + (p9 + (p10 + (p11 + (p12 + (p13 + (p14 + (p15 + (p16 + (p17 + (p18 + (p19 + p20)))))))))))));
    assert(((((((p1 + p2) + p3) + p4) + p5) + p6) + p7) + (p8 + (p9 + (p10 + (p11 + (p12 + (p13 + (p14 + (p15 + (p16 + (p17 + (p18 + (p19 + p20)))))))))))) =~= (((((p1 + p2) + p3) + p4) + p5) + p6) + (p7 + (p8 + (p9 + (p10 + (p11 + (p12 + (p13 + (p14 + (p15 + (p16 + (p17 + (p18 + (p19 + p20))))))))))))));
    assert((((((p1 + p2) + p3) + p4) + p5) + p6) + (p7 + (p8 + (p9 + (p10 + (p11 + (p12 + (p13 + (p14 + (p15 + (p16 + (p17 + (p18 + (p19 + p20))))))))))))) =~= ((((p1 + p2) + p3) + p4) + p5) + (p6 + (p7 + (p8 + (p9 + (p10 + (p11 + (p12 + (p13 + (p14 + (p15 + (p16 + (p17 + (p18 + (p19 + p20)))))))))))))));
    assert(((((p1 + p2) + p3) + p4) + p5) + (p6 + (p7 + (p8 + (p9 + (p10 + (p11 + (p12 + (p13 + (p14 + (p15 + (p16 + (p17 + (p18 + (p19 + p20)))))))))))))) =~= (((p1 + p2) + p3) + p4) + (p5 + (p6 + (p7 + (p8 + (p9 + (p10 + (p11 + (p12 + (p13 + (p14 + (p15 + (p16 + (p17 + (p18 + (p19 + p20))))))))))))))));
    assert((((p1 + p2) + p3) + p4) + (p5 + (p6 + (p7 + (p8 + (p9 + (p10 + (p11 + (p12 + (p13 + (p14 + (p15 + (p16 + (p17 + (p18 + (p19 + p20))))))))))))))) =~= ((p1 + p2) + p3) + (p4 + (p5 + (p6 + (p7 + (p8 + (p9 + (p10 + (p11 + (p12 + (p13 + (p14 + (p15 + (p16 + (p17 + (p18 + (p19 + p20)))))))))))))))));
    assert(((p1 + p2) + p3) + (p4 + (p5 + (p6 + (p7 + (p8 + (p9 + (p10 + (p11 + (p12 + (p13 + (p14 + (p15 + (p16 + (p17 + (p18 + (p19 + p20)))))))))))))))) =~= (p1 + p2) + (p3 + (p4 + (p5 + (p6 + (p7 + (p8 + (p9 + (p10 + (p11 + (p12 + (p13 + (p14 + (p15 + (p16 + (p17 + (p18 + (p19 + p20))))))))))))))))));
    assert((p1 + p2) + (p3 + (p4 + (p5 + (p6 + (p7 + (p8 + (p9 + (p10 + (p11 + (p12 + (p13 + (p14 + (p15 + (p16 + (p17 + (p18 + (p19 + p20))))))))))))))))) =~= p1 + (p2 + (p3 + (p4 + (p5 + (p6 + (p7 + (p8 + (p9 + (p10 + (p11 + (p12 + (p13 + (p14 + (p15 + (p16 + (p17 + (p18 + (p19 + p20)))))))))))))))))));
}

/// Right-associating a twenty-three-piece concatenation.
#[verifier::rlimit(100)]
#[verifier::spinoff_prover]
proof fn lemma_reassoc23(
    p1: Seq<char>,
    p2: Seq<char>,
    p3: Seq<char>,
    p4: Seq<char>,
    p5: Seq<char>,
    p6: Seq<char>,
    p7: Seq<char>,
    p8: Seq<char>,
    p9: Seq<char>,
    p10: Seq<char>,
    p11: Seq<char>,
    p12: Seq<char>,
    p13: Seq<char>,
    p14: Seq<char>,
    p15: Seq<char>,
    p16: Seq<char>,
    p17: Seq<char>,
    p18: Seq<char>,
    p19: Seq<char>,
    p20: Seq<char>,
    p21: Seq<char>,
    p22: Seq<char>,
    p23: Seq<char>,
)
    ensures
        ((((((((((((((((((((((p1 + p2) + p3) + p4) + p5) + p6) + p7) + p8) + p9) + p10) + p11) + p12) + p13) + p14) + p15) + p16) + p17) + p18) + p19) + p20) + p21) + p22) + p23) == (p1 + (p2 + (p3 + (p4 + (p5 + (p6 + (p7 + (p8 + (p9 + (p10 + (p11 + (p12 + (p13 + (p14 + (p15 + (p16 + (p17 + (p18 + (p19 + (p20 + (p21 + (p22 + p23)))))))))))))))))))))),
{
    assert((((((((((((((((((((((p1 + p2) + p3) + p4) + p5) + p6) + p7) + p8) + p9) + p10) + p11) + p12) + p13) + p14) + p15) + p16) + p17) + p18) + p19) + p20) + p21) + p22) + p23 =~= ((((((((((((((((((((p1 + p2) + p3) + p4) + p5) + p6) + p7) + p8) + p9) + p10) + p11) + p12) + p13) + p14) + p15) + p16) + p17) + p18) + p19) + p20) + p21) + (p22 + p23));
    assert(((((((((((((((((((((p1 + p2) + p3) + p4) + p5) + p6) + p7) + p8) + p9) + p10) + p11) + p12) + p13) + p14) + p15) + p16) + p17) + p18) + p19) + p20) + p21) + (p22 + p23) =~= (((((((((((((((((((p1 + p2) + p3) + p4) + p5) + p6) + p7) + p8) + p9) + p10) + p11) + p12) + p13) + p14) + p15) + p16) + p17) + p18) + p19) + p20) + (p21 + (p22 + p23)));
    assert((((((((((((((((((((p1 + p2) + p3) + p4) + p5) + p6) + p7) + p8) + p9) + p10) + p11) + p12) + p13) + p14) + p15) + p16) + p17) + p18) + p19) + p20) + (p21 + (p22 + p23)) =~= ((((((((((((((((((p1 + p2) + p3) + p4) + p5) + p6) + p7) + p8) + p9) + p10) + p11) + p12) + p13) + p14) + p15) + p16) + p17) + p18) + p19) + (p20 + (p21 + (p22 + p23))));
    assert(((((((((((((((((((p1 + p2) + p3) + p4) + p5) + p6) + p7) + p8) + p9) + p10) + p11) + p12) + p13) + p14) + p15) + p16) + p17) + p18) + p19) + (p20 + (p21 + (p22 + p23))) =~= (((((((((((((((((p1 + p2) + p3) + p4) + p5) + p6) + p7) + p8) + p9) + p10) + p11) + p12) + p13) + p14) + p15) + p16) + p17) + p18) + (p19 + (p20 + (p21 + (p22 + p23)))));
    assert((((((((((((((((((p1 + p2) + p3) + p4) + p5) + p6) + p7) + p8) + p9) + p10) + p11) + p12) + p13) + p14) + p15) + p16) + p17) + p18) + (p19 + (p20 + (p21 + (p22 + p23)))) =~= ((((((((((((((((p1 + p2) + p3) + p4) + p5) + p6) + p7) + p8) + p9) + p10) + p11) + p12) + p13) + p14) + p15) + p16) + p17) + (p18 + (p19 + (p20 + (p21 + (p22 + p23))))));
    assert(((((((((((((((((p1 + p2) + p3) + p4) + p5) + p6) + p7) + p8) + p9) + p10) + p11) + p12) + p13) + p14) + p15) + p16) + p17) + (p18 + (p19 + (p20 + (p21 + (p22 + p23))))) =~= (((((((((((((((p1 + p2) + p3) + p4) + p5) + p6) + p7) + p8) + p9) + p10) + p11) + p12) + p13) + p14) + p15) + p16) + (p17 + (p18 + (p19 + (p20 + (p21 + (p22 + p23)))))));
    assert((((((((((((((((p1 + p2) + p3) + p4) + p5) + p6) + p7) + p8) + p9) + p10) + p11) + p12) + p13) + p14) + p15) + p16) + (p17 + (p18 + (p19 + (p20 + (p21 + (p22 + p23)))))) =~= ((((((((((((((p1 + p2) + p3) + p4) + p5) + p6) + p7) + p8) + p9) + p10) + p11) + p12) + p13) + p14) + p15) + (p16 + (p17 + (p18 + (p19 + (p20 + (p21 + (p22 + p23))))))));
    assert(((((((((((((((p1 + p2) + p3) + p4) + p5) + p6) + p7) + p8) + p9) + p10) + p11) + p12) + p13) + p14) + p15) + (p16 + (p17 + (p18 + (p19 + (p20 + (p21 + (p22 + p23))))))) =~= (((((((((((((p1 + p2) + p3) + p4) + p5) + p6) + p7) + p8) + p9) + p10) + p11) + p12) + p13) + p14) + (p15 + (p16 + (p17 + (p18 + (p19 + (p20 + (p21 + (p22 + p23)))))))));
    assert((((((((((((((p1 + p2) + p3) + p4) + p5) + p6) + p7) + p8) + p9) + p10) + p11) + p12) + p13) + p14) + (p15 + (p16 + (p17 + (p18 + (p19 + (p20 + (p21 + (p22 + p23)))))))) =~= ((((((((((((p1 + p2) + p3) + p4) + p5) + p6) + p7) + p8) + p9) + p10) + p11) + p12) + p13) + (p14 + (p15 + (p16 + (p17 + (p18 + (p19 + (p20 + (p21 + (p22 + p23))))))))));
    assert(((((((((((((p1 + p2) + p3) + p4) + p5) + p6) + p7) + p8) + p9) + p10) + p11) + p12) + p13) + (p14 + (p15 + (p16 + (p17 + (p18 + (p19 + (p20 + (p21 + (p22 + p23))))))))) =~= (((((((((((p1 + p2) + p3) + p4) + p5) + p6) + p7) + p8) + p9) + p10) + p11) + p12) + (p13 + (p14 + (p15 + (p16 + (p17 + (p18 + (p19 + (p20 + (p21 + (p22 + p23)))))))))));
    assert((((((((((((p1 + p2) + p3) + p4) + p5) + p6) + p7) + p8) + p9) + p10) + p11) + p12) + (p13 + (p14 + (p15 + (p16 + (p17 + (p18 + (p19 + (p20 + (p21 + (p22 + p23)))))))))) =~= ((((((((((p1 + p2) + p3) + p4) + p5) + p6) + p7) + p8) + p9) + p10) + p11) + (p12 + (p13 + (p14 + (p15 + (p16 + (p17 + (p18 + (p19 + (p20 + (p21 + (p22 + p23))))))))))));
    assert(((((((((((p1 + p2) + p3) + p4) + p5) + p6) + p7) + p8) + p9) + p10) + p11) + (p12 + (p13 + (p14 + (p15 + (p16 + (p17 + (p18 + (p19 + (p20 + (p21 + (p22 + p23))))))))))) =~= (((((((((p1 + p2) + p3) + p4) + p5) + p6) + p7) + p8) + p9) + p10) + (p11 + (p12 + (p13 + (p14 + (p15 + (p16 + (p17 + (p18 + (p19 + (p20 + (p21 + (p22 + p23)))))))))))));
    assert((((((((((p1 + p2) + p3) + p4) + p5) + p6) + p7) + p8) + p9) + p10) + (p11 + (p12 + (p13 + (p14 + (p15 + (p16 + (p17 + (p18 + (p19 + (p20 + (p21 + (p22 + p23)))))))))))) =~= ((((((((p1 + p2) + p3) + p4) + p5) + p6) + p7) + p8) + p9) + (p10 + (p11 + (p12 + (p13 + (p14 + (p15 + (p16 + (p17 + (p18 + (p19 + (p20 + (p21 + (p22 + p23))))))))))))));
    assert(((((((((p1 + p2) + p3) + p4) + p5) + p6) + p7) + p8) + p9) + (p10 + (p11 + (p12 + (p13 + (p14 + (p15 + (p16 + (p17 + (p18 + (p19 + (p20 + (p21 + (p22 + p23))))))))))))) =~= (((((((p1 + p2) + p3) + p4) + p5) + p6) + p7) + p8) + (p9 + (p10 + (p11 + (p12 + (p13 + (p14 + (p15 + (p16 + (p17 + (p18 + (p19 + (p20 + (p21 + (p22 + p23)))))))))))))));
    assert((((((((p1 + p2) + p3) + p4) + p5) + p6) + p7) + p8) + (p9 + (p10 + (p11 + (p12 + (p13 + (p14 + (p15 + (p16 + (p17 + (p18 + (p19 + (p20 + (p21 + (p22 + p23)))))))))))))) =~= ((((((p1 + p2) + p3) + p4) + p5) + p6) + p7) + (p8 + (p9 + (p10 + (p11 + (p12 + (p13 + (p14 + (p15 + (p16 + (p17 + (p18 + (p19 + (p20 + (p21 + (p22 + p23))))))))))))))));
    assert(((((((p1 + p2) + p3) + p4) + p5) + p6) + p7) + (p8 + (p9 + (p10 + (p11 + (p12 + (p13 + (p14 + (p15 + (p16 + (p17 + (p18 + (p19 + (p20 + (p21 + (p22 + p23))))))))))))))) =~= (((((p1 + p2) + p3) + p4) + p5) + p6) + (p7 + (p8 + (p9 + (p10 + (p11 + (p12 + (p13 + (p14 + (p15 + (p16 + (p17 + (p18 + (p19 + (p20 + (p21 + (p22 + p23)))))))))))))))));
    assert((((((p1 + p2) + p3) + p4) + p5) + p6) + (p7 + (p8 + (p9 + (p10 + (p11 + (p12 + (p13 + (p14 + (p15 + (p16 + (p17 + (p18 + (p19 + (p20 + (p21 + (p22 + p23)))))))))))))))) =~= ((((p1 + p2) + p3) + p4) + p5) + (p6 + (p7 + (p8 + (p9 + (p10 + (p11 + (p12 + (p13 + (p14 + (p15 + (p16 + (p17 + (p18 + (p19 + (p20 + (p21 + (p22 + p23))))))))))))))))));
    assert(((((p1 + p2) + p3) + p4) + p5) + (p6 + (p7 + (p8 + (p9 + (p10 + (p11 + (p12 + (p13 + (p14 + (p15 + (p16 + (p17 + (p18 + (p19 + (p20 + (p21 + (p22 + p23))))))))))))))))) =~= (((p1 + p2) + p3) + p4) + (p5 + (p6 + (p7 + (p8 + (p9 + (p10 + (p11 + (p12 + (p13 + (p14 + (p15 + (p16 + (p17 + (p18 + (p19 + (p20 + (p21 + (p22 + p23)))))))))))))))))));
    assert((((p1 + p2) + p3) + p4) + (p5 + (p6 + (p7 + (p8 + (p9 + (p10 + (p11 + (p12 + (p13 + (p14 + (p15 + (p16 + (p17 + (p18 + (p19 + (p20 + (p21 + (p22 + p23)))))))))))))))))) =~= ((p1 + p2) + p3) + (p4 + (p5 + (p6 + (p7 + (p8 + (p9 + (p10 + (p11 + (p12 + (p13 + (p14 + (p15 + (p16 + (p17 + (p18 + (p19 + (p20 + (p21 + (p22 + p23))))))))))))))))))));
    assert(((p1 + p2) + p3) + (p4 + (p5 + (p6 + (p7 + (p8 + (p9 + (p10 + (p11 + (p12 + (p13 + (p14 + (p15 + (p16 + (p17 + (p18 + (p19 + (p20 + (p21 + (p22 + p23))))))))))))))))))) =~= (p1 + p2) + (p3 + (p4 + (p5 + (p6 + (p7 + (p8 + (p9 + (p10 + (p11 + (p12 + (p13 + (p14 + (p15 + (p16 + (p17 + (p18 + (p19 + (p20 + (p21 + (p22 + p23)))))))))))))))))))));
    assert((p1 + p2) + (p3 + (p4 + (p5 + (p6 + (p7 + (p8 + (p9 + (p10 + (p11 + (p12 + (p13 + (p14 + (p15 + (p16 + (p17 + (p18 + (p19 + (p20 + (p21 + (p22 + p23)))))))))))))))))))) =~= p1 + (p2 + (p3 + (p4 + (p5 + (p6 + (p7 + (p8 + (p9 + (p10 + (p11 + (p12 + (p13 + (p14 + (p15 + (p16 + (p17 + (p18 + (p19 + (p20 + (p21 + (p22 + p23))))))))))))))))))))));
}

/// The field-by-field peel of two submit frames printing alike.
#[verifier::rlimit(100)]
proof fn lemma_submit_parts(
    v1: u8,
    id1: String,
    p1: SubmitPayload,
    v2: u8,
    id2: String,
    p2: SubmitPayload,
    m1: ClientMessage,
    m2: ClientMessage,
)
    requires
        m1 == (ClientMessage::Submit { v: v1, id: id1, payload: p1 }),
        m2 == (ClientMessage::Submit { v: v2, id: id2, payload: p2 }),
        spec_ser_client(m1) == spec_ser_client(m2),
    ensures
        v1 == v2,
        id1@ == id2@,
        p1.job_id@ == p2.job_id@,
        p1.nonce@ == p2.nonce@,
{
    reveal_strlit("{\"type\":\"submit\",\"v\":");
    reveal_strlit(",\"id\":\"");
    reveal_strlit(",\"payload\":{\"job_id\":\"");
    reveal_strlit(",\"nonce\":\"");
    reveal_strlit("}}");
    let l1 = "{\"type\":\"submit\",\"v\":"@;
    let l2 = ",\"id\":\""@;
    let l3 = ",\"payload\":{\"job_id\":\""@;
    let l4 = ",\"nonce\":\""@;
    let l5 = "}}"@;
    let u1 = l3 + (jstr_body(p1.job_id@) + (l4 + (jstr_body(p1.nonce@) + l5)));
    let u2 = l3 + (jstr_body(p2.job_id@) + (l4 + (jstr_body(p2.nonce@) + l5)));
    let t1 = l2 + (jstr_body(id1@) + u1);
    let t2 = l2 + (jstr_body(id2@) + u2);
    let r1 = dec_u64(v1 as nat) + t1;
    let r2 = dec_u64(v2 as nat) + t2;
    assert(spec_ser_client(m1) =~= l1 + r1);
    assert(spec_ser_client(m2) =~= l1 + r2);
    lemma_concat_peel(l1, r1, r2);
    assert(t1[0] == ',' && t2[0] == ',');
    lemma_dec_prefix_free(v1 as nat, v2 as nat, t1, t2);
    lemma_concat_peel(l2, jstr_body(id1@) + u1, jstr_body(id2@) + u2);
    lemma_jstr_prefix_free(id1@, u1, id2@, u2);
    lemma_concat_peel(
        l3,
        jstr_body(p1.job_id@) + (l4 + (jstr_body(p1.nonce@) + l5)),
        jstr_body(p2.job_id@) + (l4 + (jstr_body(p2.nonce@) + l5)),
    );
    lemma_jstr_prefix_free(
        p1.job_id@,
        l4 + (jstr_body(p1.nonce@) + l5),
        p2.job_id@,
        l4 + (jstr_body(p2.nonce@) + l5),
    );
    lemma_concat_peel(l4, jstr_body(p1.nonce@) + l5, jstr_body(p2.nonce@) + l5);
    lemma_jstr_prefix_free(p1.nonce@, l5, p2.nonce@, l5);
}

/// The field-by-field peel of two share frames printing alike.
#[verifier::rlimit(100)]
proof fn lemma_share_parts(
    v1: u8,
    id1: Option<String>,
    p1: SharePayload,
    v2: u8,
    id2: Option<String>,
    p2: SharePayload,
    m1: ClientMessage,
    m2: ClientMessage,
)
    requires
        m1 == (ClientMessage::Share { v: v1, id: id1, payload: p1 }),
        m2 == (ClientMessage::Share { v: v2, id: id2, payload: p2 }),
        spec_ser_client(m1) == spec_ser_client(m2),
    ensures
        v1 == v2,
        opt_view(id1) == opt_view(id2),
        p1.job_id@ == p2.job_id@,
        p1.nonce == p2.nonce,
        p1.result_hash_hex@ == p2.result_hash_hex@,
{
    reveal_strlit("{\"type\":\"share\",\"v\":");
    reveal_strlit(",\"id\":\"");
    reveal_strlit(",\"payload\":{\"job_id\":\"");
    reveal_strlit(",\"nonce\":");
    reveal_strlit(",\"result_hash_hex\":\"");
    reveal_strlit("}}");
    let l1 = "{\"type\":\"share\",\"v\":"@;
    let lid = ",\"id\":\""@;
    let l3 = ",\"payload\":{\"job_id\":\""@;
    let l4 = ",\"nonce\":"@;
    let l5 = ",\"result_hash_hex\":\""@;
    let l6 = "}}"@;
    let w1 = l5 + (jstr_body(p1.result_hash_hex@) + l6);
    let w2 = l5 + (jstr_body(p2.result_hash_hex@) + l6);
    let x1 = l4 + (dec_u64(p1.nonce as nat) + w1);
    let x2 = l4 + (dec_u64(p2.nonce as nat) + w2);
    let u1 = l3 + (jstr_body(p1.job_id@) + x1);
    let u2 = l3 + (jstr_body(p2.job_id@) + x2);
    let t1 = opt_str_field(lid, opt_view(id1)) + u1;
    let t2 = opt_str_field(lid, opt_view(id2)) + u2;
    let r1 = dec_u64(v1 as nat) + t1;
    let r2 = dec_u64(v2 as nat) + t2;
    assert(spec_ser_client(m1) =~= l1 + r1);
    assert(spec_ser_client(m2) =~= l1 + r2);
    lemma_concat_peel(l1, r1, r2);
    assert(t1[0] == ',' && t2[0] == ',');
    lemma_dec_prefix_free(v1 as nat, v2 as nat, t1, t2);
    match (id1, id2) {
        (Some(s1), Some(s2)) => {
            assert(t1 =~= lid + (jstr_body(s1@) + u1));
            assert(t2 =~= lid + (jstr_body(s2@) + u2));
            lemma_concat_peel(lid, jstr_body(s1@) + u1, jstr_body(s2@) + u2);
            lemma_jstr_prefix_free(s1@, u1, s2@, u2);
        },
        (None, None) => {
            assert(t1 =~= u1);
            assert(t2 =~= u2);
        },
        (Some(s1), None) => {
            assert(t1[2] == 'i');
            assert(t2[2] == 'p');
            assert(false);
        },
        (None, Some(s2)) => {
            assert(t1[2] == 'p');
            assert(t2[2] == 'i');
            assert(false);
        },
    }
    assert(u1 == u2);
    lemma_concat_peel(l3, jstr_body(p1.job_id@) + x1, jstr_body(p2.job_id@) + x2);
    lemma_jstr_prefix_free(p1.job_id@, x1, p2.job_id@, x2);
    lemma_concat_peel(l4, dec_u64(p1.nonce as nat) + w1, dec_u64(p2.nonce as nat) + w2);
    assert(w1[0] == ',' && w2[0] == ',');
    lemma_dec_prefix_free(p1.nonce as nat, p2.nonce as nat, w1, w2);
    lemma_concat_peel(
        l5,
        jstr_body(p1.result_hash_hex@) + l6,
        jstr_body(p2.result_hash_hex@) + l6,
    );
    lemma_jstr_prefix_free(p1.result_hash_hex@, l6, p2.result_hash_hex@, l6);
}

/// The field-by-field peel of two ping frames printing alike.
#[verifier::rlimit(100)]
proof fn lemma_ping_parts(
    v1: u8,
    id1: String,
    p1: PingPayload,
    v2: u8,
    id2: String,
    p2: PingPayload,
    m1: ClientMessage,
    m2: ClientMessage,
)
    requires
        m1 == (ClientMessage::Ping { v: v1, id: id1, payload: p1 }),
        m2 == (ClientMessage::Ping { v: v2, id: id2, payload: p2 }),
        spec_ser_client(m1) == spec_ser_client(m2),
    ensures
        v1 == v2,
        id1@ == id2@,
{
    reveal_strlit("{\"type\":\"ping\",\"v\":");
    reveal_strlit(",\"id\":\"");
    reveal_strlit(",\"payload\":{}}");
    let l1 = "{\"type\":\"ping\",\"v\":"@;
    let l2 = ",\"id\":\""@;
    let l5 = ",\"payload\":{}}"@;
    let t1 = l2 + (jstr_body(id1@) + l5);
    let t2 = l2 + (jstr_body(id2@) + l5);
    let r1 = dec_u64(v1 as nat) + t1;
    let r2 = dec_u64(v2 as nat) + t2;
    assert(spec_ser_client(m1) =~= l1 + r1);
    assert(spec_ser_client(m2) =~= l1 + r2);
    lemma_concat_peel(l1, r1, r2);
    assert(t1[0] == ',' && t2[0] == ',');
    lemma_dec_prefix_free(v1 as nat, v2 as nat, t1, t2);
    lemma_concat_peel(l2, jstr_body(id1@) + l5, jstr_body(id2@) + l5);
    lemma_jstr_prefix_free(id1@, l5, id2@, l5);
}

/// Right-associating a twelve-piece concatenation.
#[verifier::rlimit(100)]
#[verifier::spinoff_prover]
proof fn lemma_reassoc12(
    p1: Seq<char>,
    p2: Seq<char>,
    p3: Seq<char>,
    p4: Seq<char>,
    p5: Seq<char>,
    p6: Seq<char>,
    p7: Seq<char>,
    p8: Seq<char>,
    p9: Seq<char>,
    p10: Seq<char>,
    p11: Seq<char>,
    p12: Seq<char>,
)
    ensures
        (((((((((((p1 + p2) + p3) + p4) + p5) + p6) + p7) + p8) + p9) + p10) + p11) + p12) == (p1
            + (p2 + (p3 + (p4 + (p5 + (p6 + (p7 + (p8 + (p9 + (p10 + (p11 + p12))))))))))),
{
    assert((((((((((((p1 + p2) + p3) + p4) + p5) + p6) + p7) + p8) + p9) + p10) + p11) + p12) =~= (
    p1 + (p2 + (p3 + (p4 + (p5 + (p6 + (p7 + (p8 + (p9 + (p10 + (p11 + p12))))))))))));
}

/// The field-by-field peel of two hello frames printing alike: the version,
/// the id, the miner version and the thread count; the optional chain is
/// handed to `lemma_hello_opts`.
#[verifier::rlimit(100)]
proof fn lemma_hello_parts(
    v1: u8,
    id1: Option<String>,
    p1: HelloPayload,
    v2: u8,
    id2: Option<String>,
    p2: HelloPayload,
    m1: ClientMessage,
    m2: ClientMessage,
)
    requires
        m1 == (ClientMessage::Hello { v: v1, id: id1, payload: p1 }),
        m2 == (ClientMessage::Hello { v: v2, id: id2, payload: p2 }),
        spec_ser_client(m1) == spec_ser_client(m2),
    ensures
        v1 == v2,
        opt_view(id1) == opt_view(id2),
        p1.miner_version@ == p2.miner_version@,
        p1.threads == p2.threads,
        opt_view(p1.site_token) == opt_view(p2.site_token),
        opt_view(p1.user_agent_hint) == opt_view(p2.user_agent_hint),
        p1.supports_binary == p2.supports_binary,
        opt_view(p1.randomx_mode) == opt_view(p2.randomx_mode),
{
    reveal_strlit("{\"type\":\"hello\",\"v\":");
    reveal_strlit(",\"id\":\"");
    reveal_strlit(",\"payload\":{\"miner_version\":\"");
    reveal_strlit(",\"threads\":");
    let l1 = "{\"type\":\"hello\",\"v\":"@;
    let lid = ",\"id\":\""@;
    let lmv = ",\"payload\":{\"miner_version\":\""@;
    let lth = ",\"threads\":"@;
    let lst = ",\"site_token\":\""@;
    let lua = ",\"user_agent_hint\":\""@;
    let lsb = ",\"supports_binary\":"@;
    let lrx = ",\"randomx_mode\":\""@;
    let end = "}}"@;

    // Right-associated views of both prints, one optional piece per level.
    let e1 = opt_str_field(lrx, opt_view(p1.randomx_mode)) + end;
    let e2 = opt_str_field(lrx, opt_view(p2.randomx_mode)) + end;
    let d1 = opt_bool_field(lsb, p1.supports_binary) + e1;
    let d2 = opt_bool_field(lsb, p2.supports_binary) + e2;
    let c1 = opt_str_field(lua, opt_view(p1.user_agent_hint)) + d1;
    let c2 = opt_str_field(lua, opt_view(p2.user_agent_hint)) + d2;
    let b1 = opt_str_field(lst, opt_view(p1.site_token)) + c1;
    let b2 = opt_str_field(lst, opt_view(p2.site_token)) + c2;
    let a1 = lth + (dec_u64(p1.threads as nat) + b1);
    let a2 = lth + (dec_u64(p2.threads as nat) + b2);
    let mv1 = lmv + (jstr_body(p1.miner_version@) + a1);
    let mv2 = lmv + (jstr_body(p2.miner_version@) + a2);
    let t1 = opt_str_field(lid, opt_view(id1)) + mv1;
    let t2 = opt_str_field(lid, opt_view(id2)) + mv2;
    let r1 = dec_u64(v1 as nat) + t1;
    let r2 = dec_u64(v2 as nat) + t2;
    assert(Seq::<char>::empty() + l1 =~= l1);
    lemma_reassoc12(
        Seq::<char>::empty() + l1,
        dec_u64(v1 as nat),
        opt_str_field(lid, opt_view(id1)),
        lmv,
        jstr_body(p1.miner_version@),
        lth,
        dec_u64(p1.threads as nat),
        opt_str_field(lst, opt_view(p1.site_token)),
        opt_str_field(lua, opt_view(p1.user_agent_hint)),
        opt_bool_field(lsb, p1.supports_binary),
        opt_str_field(lrx, opt_view(p1.randomx_mode)),
        end,
    );
    lemma_reassoc12(
        Seq::<char>::empty() + l1,
        dec_u64(v2 as nat),
        opt_str_field(lid, opt_view(id2)),
        lmv,
        jstr_body(p2.miner_version@),
        lth,
        dec_u64(p2.threads as nat),
        opt_str_field(lst, opt_view(p2.site_token)),
        opt_str_field(lua, opt_view(p2.user_agent_hint)),
        opt_bool_field(lsb, p2.supports_binary),
        opt_str_field(lrx, opt_view(p2.randomx_mode)),
        end,
    );
    assert(spec_ser_client(m1) == l1 + r1);
    assert(spec_ser_client(m2) == l1 + r2);
    lemma_concat_peel(l1, r1, r2);
    assert(t1[0] == ',' && t2[0] == ',');
    lemma_dec_prefix_free(v1 as nat, v2 as nat, t1, t2);

    // The optional correlation id.
    match (id1, id2) {
        (Some(s1), Some(s2)) => {
            assert(t1 =~= lid + (jstr_body(s1@) + mv1));
            assert(t2 =~= lid + (jstr_body(s2@) + mv2));
            lemma_concat_peel(lid, jstr_body(s1@) + mv1, jstr_body(s2@) + mv2);
            lemma_jstr_prefix_free(s1@, mv1, s2@, mv2);
        },
        (None, None) => {
            assert(t1 =~= mv1);
            assert(t2 =~= mv2);
        },
        (Some(s1), None) => {
            assert(t1[2] == 'i');
            assert(t2[2] == 'p');
            assert(false);
        },
        (None, Some(s2)) => {
            assert(t1[2] == 'p');
            assert(t2[2] == 'i');
            assert(false);
        },
    }
    assert(mv1 == mv2);
    lemma_concat_peel(lmv, jstr_body(p1.miner_version@) + a1, jstr_body(p2.miner_version@) + a2);
    lemma_jstr_prefix_free(p1.miner_version@, a1, p2.miner_version@, a2);
    lemma_concat_peel(lth, dec_u64(p1.threads as nat) + b1, dec_u64(p2.threads as nat) + b2);
    assert(b1.len() > 0 && !is_digit_char(b1[0])) by {
        lemma_hello_chain_site(
            p1.site_token,
            p1.user_agent_hint,
            p1.supports_binary,
            p1.randomx_mode,
            b1,
            c1,
            d1,
            e1,
        );
    }
    assert(b2.len() > 0 && !is_digit_char(b2[0])) by {
        lemma_hello_chain_site(
            p2.site_token,
            p2.user_agent_hint,
            p2.supports_binary,
            p2.randomx_mode,
            b2,
            c2,
            d2,
            e2,
        );
    }
    lemma_dec_prefix_free(p1.threads as nat, p2.threads as nat, b1, b2);
    lemma_hello_opts(p1, p2, b1, c1, d1, e1, b2, c2, d2, e2);
}

/// The peel of the hello frame's optional chain: site_token, then
/// user_agent_hint, then supports_binary, then randomx_mode.
#[verifier::rlimit(100)]
proof fn lemma_hello_opts(
    p1: HelloPayload,
    p2: HelloPayload,
    b1: Seq<char>,
    c1: Seq<char>,
    d1: Seq<char>,
    e1: Seq<char>,
    b2: Seq<char>,
    c2: Seq<char>,
    d2: Seq<char>,
    e2: Seq<char>,
)
    requires
        e1 == opt_str_field(",\"randomx_mode\":\""@, opt_view(p1.randomx_mode)) + "}}"@,
        e2 == opt_str_field(",\"randomx_mode\":\""@, opt_view(p2.randomx_mode)) + "}}"@,
        d1 == opt_bool_field(",\"supports_binary\":"@, p1.supports_binary) + e1,
        d2 == opt_bool_field(",\"supports_binary\":"@, p2.supports_binary) + e2,
        c1 == opt_str_field(",\"user_agent_hint\":\""@, opt_view(p1.user_agent_hint)) + d1,
        c2 == opt_str_field(",\"user_agent_hint\":\""@, opt_view(p2.user_agent_hint)) + d2,
        b1 == opt_str_field(",\"site_token\":\""@, opt_view(p1.site_token)) + c1,
        b2 == opt_str_field(",\"site_token\":\""@, opt_view(p2.site_token)) + c2,
        b1 == b2,
    ensures
        opt_view(p1.site_token) == opt_view(p2.site_token),
        opt_view(p1.user_agent_hint) == opt_view(p2.user_agent_hint),
        p1.supports_binary == p2.supports_binary,
        opt_view(p1.randomx_mode) == opt_view(p2.randomx_mode),
{
    reveal_strlit(",\"site_token\":\"");
    reveal_strlit(",\"user_agent_hint\":\"");
    reveal_strlit(",\"supports_binary\":");
    reveal_strlit(",\"randomx_mode\":\"");
    reveal_strlit("true");
    reveal_strlit("false");
    reveal_strlit("}}");
    let lst = ",\"site_token\":\""@;
    let lua = ",\"user_agent_hint\":\""@;
    let lsb = ",\"supports_binary\":"@;
    let lrx = ",\"randomx_mode\":\""@;
    let end = "}}"@;

    // site_token.
    match (p1.site_token, p2.site_token) {
        (Some(s1), Some(s2)) => {
            assert(b1 =~= lst + (jstr_body(s1@) + c1));
            assert(b2 =~= lst + (jstr_body(s2@) + c2));
            lemma_concat_peel(lst, jstr_body(s1@) + c1, jstr_body(s2@) + c2);
            lemma_jstr_prefix_free(s1@, c1, s2@, c2);
        },
        (None, None) => {
            assert(b1 =~= c1);
            assert(b2 =~= c2);
        },
        (Some(s1), None) => {
            assert(b1[0] == ',' && b1[2] == 's' && b1[3] == 'i');
            assert(b2 =~= c2);
            lemma_hello_chain_ua(
                p2.user_agent_hint,
                p2.supports_binary,
                p2.randomx_mode,
                c2,
                d2,
                e2,
            );
            assert(false);
        },
        (None, Some(s2)) => {
            assert(b2[0] == ',' && b2[2] == 's' && b2[3] == 'i');
            assert(b1 =~= c1);
            lemma_hello_chain_ua(
                p1.user_agent_hint,
                p1.supports_binary,
                p1.randomx_mode,
                c1,
                d1,
                e1,
            );
            assert(false);
        },
    }
    assert(c1 == c2);

    // user_agent_hint.
    match (p1.user_agent_hint, p2.user_agent_hint) {
        (Some(s1), Some(s2)) => {
            assert(c1 =~= lua + (jstr_body(s1@) + d1));
            assert(c2 =~= lua + (jstr_body(s2@) + d2));
            lemma_concat_peel(lua, jstr_body(s1@) + d1, jstr_body(s2@) + d2);
            lemma_jstr_prefix_free(s1@, d1, s2@, d2);
        },
        (None, None) => {
            assert(c1 =~= d1);
            assert(c2 =~= d2);
        },
        (Some(s1), None) => {
            assert(c1[0] == ',' && c1[2] == 'u');
            assert(c2 =~= d2);
            lemma_hello_chain_sb(p2.supports_binary, p2.randomx_mode, d2, e2);
            assert(false);
        },
        (None, Some(s2)) => {
            assert(c2[0] == ',' && c2[2] == 'u');
            assert(c1 =~= d1);
            lemma_hello_chain_sb(p1.supports_binary, p1.randomx_mode, d1, e1);
            assert(false);
        },
    }
    assert(d1 == d2);

    // supports_binary.
    match (p1.supports_binary, p2.supports_binary) {
        (Some(x1), Some(x2)) => {
            let v1s = if x1 {
                "true"@
            } else {
                "false"@
            };
            let v2s = if x2 {
                "true"@
            } else {
                "false"@
            };
            assert(d1 =~= lsb + (v1s + e1));
            assert(d2 =~= lsb + (v2s + e2));
            lemma_concat_peel(lsb, v1s + e1, v2s + e2);
            if x1 != x2 {
                assert((v1s + e1)[0] != (v2s + e2)[0]);
                assert(false);
            }
            lemma_concat_peel(v1s, e1, e2);
        },
        (None, None) => {
            assert(d1 =~= e1);
            assert(d2 =~= e2);
        },
        (Some(x1), None) => {
            assert(d1[0] == ',' && d1[2] == 's' && d1[3] == 'u');
            assert(d2 =~= e2);
            lemma_hello_chain_rx(p2.randomx_mode, e2);
            assert(false);
        },
        (None, Some(x2)) => {
            assert(d2[0] == ',' && d2[2] == 's' && d2[3] == 'u');
            assert(d1 =~= e1);
            lemma_hello_chain_rx(p1.randomx_mode, e1);
            assert(false);
        },
    }
    assert(e1 == e2);

    // randomx_mode.
    match (p1.randomx_mode, p2.randomx_mode) {
        (Some(s1), Some(s2)) => {
            assert(e1 =~= lrx + (jstr_body(s1@) + end));
            assert(e2 =~= lrx + (jstr_body(s2@) + end));
            lemma_concat_peel(lrx, jstr_body(s1@) + end, jstr_body(s2@) + end);
            lemma_jstr_prefix_free(s1@, end, s2@, end);
        },
        (None, None) => {},
        (Some(s1), None) => {
            assert(e1[0] == ',');
            assert(e2[0] == '}');
            assert(false);
        },
        (None, Some(s2)) => {
            assert(e1[0] == '}');
            assert(e2[0] == ',');
            assert(false);
        },
    }
}

/// Head characters of the chain at the randomx_mode position: the field's
/// prefix when present, the closing braces when absent.
proof fn lemma_hello_chain_rx(rx: Option<String>, e: Seq<char>)
    requires
        e == opt_str_field(",\"randomx_mode\":\""@, opt_view(rx)) + "}}"@,
    ensures
        e.len() >= 2,
        (e[0] == ',' && e.len() > 4 && e[2] == 'r') || e[0] == '}',
{
    reveal_strlit(",\"randomx_mode\":\"");
    reveal_strlit("}}");
    match rx {
        Some(_) => {
            assert(e[0] == ',' && e[2] == 'r');
        },
        None => {
            assert(e =~= "}}"@);
        },
    }
}

/// Head characters of the chain at the supports_binary position.
proof fn lemma_hello_chain_sb(sb: Option<bool>, rx: Option<String>, d: Seq<char>, e: Seq<char>)
    requires
        d == opt_bool_field(",\"supports_binary\":"@, sb) + e,
        e == opt_str_field(",\"randomx_mode\":\""@, opt_view(rx)) + "}}"@,
    ensures
        d.len() >= 2,
        (d[0] == ',' && d.len() > 4 && (d[2] == 's' && d[3] == 'u' || d[2] == 'r')) || d[0] == '}',
{
    reveal_strlit(",\"supports_binary\":");
    match sb {
        Some(_) => {
            assert(d[0] == ',' && d[2] == 's' && d[3] == 'u');
        },
        None => {
            assert(d =~= e);
            lemma_hello_chain_rx(rx, e);
        },
    }
}

/// Head characters of the chain at the user_agent_hint position.
proof fn lemma_hello_chain_ua(
    ua: Option<String>,
    sb: Option<bool>,
    rx: Option<String>,
    c: Seq<char>,
    d: Seq<char>,
    e: Seq<char>,
)
    requires
        c == opt_str_field(",\"user_agent_hint\":\""@, opt_view(ua)) + d,
        d == opt_bool_field(",\"supports_binary\":"@, sb) + e,
        e == opt_str_field(",\"randomx_mode\":\""@, opt_view(rx)) + "}}"@,
    ensures
        c.len() >= 2,
        (c[0] == ',' && c.len() > 4 && (c[2] == 'u' || c[2] == 's' && c[3] == 'u' || c[2] == 'r'))
            || c[0] == '}',
{
    reveal_strlit(",\"user_agent_hint\":\"");
    match ua {
        Some(_) => {
            assert(c[0] == ',' && c[2] == 'u');
        },
        None => {
            assert(c =~= d);
            lemma_hello_chain_sb(sb, rx, d, e);
        },
    }
}

/// Head characters of the whole optional chain after "threads".
proof fn lemma_hello_chain_site(
    site: Option<String>,
    ua: Option<String>,
    sb: Option<bool>,
    rx: Option<String>,
    b: Seq<char>,
    c: Seq<char>,
    d: Seq<char>,
    e: Seq<char>,
)
    requires
        b == opt_str_field(",\"site_token\":\""@, opt_view(site)) + c,
        c == opt_str_field(",\"user_agent_hint\":\""@, opt_view(ua)) + d,
        d == opt_bool_field(",\"supports_binary\":"@, sb) + e,
        e == opt_str_field(",\"randomx_mode\":\""@, opt_view(rx)) + "}}"@,
    ensures
        b.len() >= 2,
        b[0] == ',' || b[0] == '}',
        !is_digit_char(b[0]),
{
    reveal_strlit(",\"site_token\":\"");
    match site {
        Some(_) => {
            assert(b[0] == ',');
        },
        None => {
            assert(b =~= c);
            lemma_hello_chain_ua(ua, sb, rx, c, d, e);
        },
    }
}


/// Two server messages carry the same fields (up to string contents).
pub open spec fn server_msg_eq(m1: ServerMessage, m2: ServerMessage) -> bool {
    match (m1, m2) {
        (
            ServerMessage::Stats { v: v1, id: id1, payload: p1 },
            ServerMessage::Stats { v: v2, id: id2, payload: p2 },
        ) => v1 == v2 && opt_view(id1) == opt_view(id2) && p1.session_id@ == p2.session_id@
            && p1.submits_per_minute == p2.submits_per_minute && p1.messages_per_second
            == p2.messages_per_second && p1.policy == p2.policy && p1.server_time_ms
            == p2.server_time_ms && p1.tip_height == p2.tip_height,
        (
            ServerMessage::Job { v: v1, id: id1, payload: p1 },
            ServerMessage::Job { v: v2, id: id2, payload: p2 },
        ) => v1 == v2 && opt_view(id1) == opt_view(id2) && p1.job_id@ == p2.job_id@
            && p1.blob_hex@ == p2.blob_hex@ && p1.reserved_offset == p2.reserved_offset
            && p1.reserved_value_hex@ == p2.reserved_value_hex@ && p1.target_hex@
            == p2.target_hex@ && p1.height == p2.height && p1.seed_hash@ == p2.seed_hash@
            && p1.expires_at_ms == p2.expires_at_ms && opt_view(p1.share_target_hex) == opt_view(
            p2.share_target_hex,
        ) && p1.algo@ == p2.algo@,
        (
            ServerMessage::SubmitResult { v: v1, id: id1, payload: p1 },
            ServerMessage::SubmitResult { v: v2, id: id2, payload: p2 },
        ) => v1 == v2 && id1@ == id2@ && p1.status == p2.status && opt_view(p1.message)
            == opt_view(p2.message),
        (
            ServerMessage::Error { v: v1, id: id1, payload: p1 },
            ServerMessage::Error { v: v2, id: id2, payload: p2 },
        ) => v1 == v2 && opt_view(id1) == opt_view(id2) && p1.code == p2.code && p1.message@
            == p2.message@,
        (
            ServerMessage::Pong { v: v1, id: id1, payload: p1 },
            ServerMessage::Pong { v: v2, id: id2, payload: p2 },
        ) => v1 == v2 && id1@ == id2@,
        _ => false,
    }
}

/// The round-trip law for server frames: the canonical print determines the
/// message, type and fields alike.
pub proof fn lemma_ser_server_injective(m1: ServerMessage, m2: ServerMessage)
    requires
        spec_ser_server(m1) == spec_ser_server(m2),
    ensures
        server_msg_eq(m1, m2),
{
    match (m1, m2) {
        (
            ServerMessage::Stats { v: v1, id: id1, payload: p1 },
            ServerMessage::Stats { v: v2, id: id2, payload: p2 },
        ) => {
            lemma_stats_parts(v1, id1, p1, v2, id2, p2, m1, m2);
        },
        (
            ServerMessage::Job { v: v1, id: id1, payload: p1 },
            ServerMessage::Job { v: v2, id: id2, payload: p2 },
        ) => {
            lemma_jobmsg_parts(v1, id1, p1, v2, id2, p2, m1, m2);
        },
        (
            ServerMessage::SubmitResult { v: v1, id: id1, payload: p1 },
            ServerMessage::SubmitResult { v: v2, id: id2, payload: p2 },
        ) => {
            lemma_submit_result_parts(v1, id1, p1, v2, id2, p2, m1, m2);
        },
        (
            ServerMessage::Error { v: v1, id: id1, payload: p1 },
            ServerMessage::Error { v: v2, id: id2, payload: p2 },
        ) => {
            lemma_errmsg_parts(v1, id1, p1, v2, id2, p2, m1, m2);
        },
        (
            ServerMessage::Pong { v: v1, id: id1, payload: p1 },
            ServerMessage::Pong { v: v2, id: id2, payload: p2 },
        ) => {
            lemma_pong_parts(v1, id1, p1, v2, id2, p2, m1, m2);
        },
        _ => {
            lemma_server_tag_char(m1);
            lemma_server_tag_char(m2);
            assert(spec_ser_server(m1)[9] == spec_ser_server(m2)[9]);
            assert(spec_ser_server(m1)[10] == spec_ser_server(m2)[10]);
            assert(false);
        },
    }
}

/// The character at offset 9 of a server frame (the tag's first letter).
spec fn tag_char_server(m: ServerMessage) -> char {
    match m {
        ServerMessage::Stats { .. } => 's',
        ServerMessage::Job { .. } => 'j',
        ServerMessage::SubmitResult { .. } => 's',
        ServerMessage::Error { .. } => 'e',
        ServerMessage::Pong { .. } => 'p',
    }
}

/// The character at offset 10 of a server frame (the tag's second letter).
spec fn tag_char2_server(m: ServerMessage) -> char {
    match m {
        ServerMessage::Stats { .. } => 't',
        ServerMessage::Job { .. } => 'o',
        ServerMessage::SubmitResult { .. } => 'u',
        ServerMessage::Error { .. } => 'r',
        ServerMessage::Pong { .. } => 'o',
    }
}

proof fn lemma_server_tag_char(m: ServerMessage)
    ensures
        spec_ser_server(m).len() > 10,
        spec_ser_server(m)[9] == tag_char_server(m),
        spec_ser_server(m)[10] == tag_char2_server(m),
{
    reveal_strlit("{\"type\":\"stats\",\"v\":");
    reveal_strlit("{\"type\":\"job\",\"v\":");
    reveal_strlit("{\"type\":\"submit_result\",\"v\":");
    reveal_strlit("{\"type\":\"error\",\"v\":");
    reveal_strlit("{\"type\":\"pong\",\"v\":");
}

/// A status name with its closing quote determines the status and the rest.
proof fn lemma_status_unit_prefix_free(
    c1: SubmitStatus,
    c2: SubmitStatus,
    t1: Seq<char>,
    t2: Seq<char>,
)
    requires
        status_unit(c1) + t1 == status_unit(c2) + t2,
    ensures
        c1 == c2,
        t1 == t2,
{
    reveal_strlit("ACCEPTED\"");
    reveal_strlit("REJECTED\"");
    reveal_strlit("STALE\"");
    reveal_strlit("ERROR\"");
    if c1 != c2 {
        assert((status_unit(c1) + t1)[0] == status_unit(c1)[0]);
        assert((status_unit(c2) + t2)[0] == status_unit(c2)[0]);
        assert(false);
    }
    lemma_concat_peel(status_unit(c1), t1, t2);
}

/// An error-code name with its closing quote determines the code and the
/// rest: the names differ within their first five characters.
proof fn lemma_code_unit_prefix_free(c1: ErrorCode, c2: ErrorCode, t1: Seq<char>, t2: Seq<char>)
    requires
        code_unit(c1) + t1 == code_unit(c2) + t2,
    ensures
        c1 == c2,
        t1 == t2,
{
    reveal_strlit("BAD_FORMAT\"");
    reveal_strlit("UNAUTHORIZED\"");
    reveal_strlit("RATE_LIMIT\"");
    reveal_strlit("STALE_JOB\"");
    reveal_strlit("BAD_JOB\"");
    reveal_strlit("BAD_RESERVED\"");
    reveal_strlit("BAD_POW\"");
    reveal_strlit("INTERNAL\"");
    reveal_strlit("RPC_DOWN\"");
    if c1 != c2 {
        assert((code_unit(c1) + t1)[0] == code_unit(c1)[0]);
        assert((code_unit(c2) + t2)[0] == code_unit(c2)[0]);
        assert((code_unit(c1) + t1)[1] == code_unit(c1)[1]);
        assert((code_unit(c2) + t2)[1] == code_unit(c2)[1]);
        assert((code_unit(c1) + t1)[4] == code_unit(c1)[4]);
        assert((code_unit(c2) + t2)[4] == code_unit(c2)[4]);
        assert(false);
    }
    lemma_concat_peel(code_unit(c1), t1, t2);
}

/// The field-by-field peel of two stats frames printing alike.
#[verifier::rlimit(100)]
proof fn lemma_stats_parts(
    v1: u8,
    id1: Option<String>,
    p1: StatsPayload,
    v2: u8,
    id2: Option<String>,
    p2: StatsPayload,
    m1: ServerMessage,
    m2: ServerMessage,
)
    requires
        m1 == (ServerMessage::Stats { v: v1, id: id1, payload: p1 }),
        m2 == (ServerMessage::Stats { v: v2, id: id2, payload: p2 }),
        spec_ser_server(m1) == spec_ser_server(m2),
    ensures
        v1 == v2,
        opt_view(id1) == opt_view(id2),
        p1.session_id@ == p2.session_id@,
        p1.submits_per_minute == p2.submits_per_minute,
        p1.messages_per_second == p2.messages_per_second,
        p1.policy == p2.policy,
        p1.server_time_ms == p2.server_time_ms,
        p1.tip_height == p2.tip_height,
{
    reveal_strlit("{\"type\":\"stats\",\"v\":");
    reveal_strlit(",\"id\":\"");
    reveal_strlit(",\"payload\":{\"session_id\":\"");
    reveal_strlit(",\"submits_per_minute\":");
    reveal_strlit(",\"messages_per_second\":");
    reveal_strlit(",\"policy\":{\"job_ttl_ms\":");
    reveal_strlit(",\"max_submits_per_min\":");
    reveal_strlit(",\"max_shares_per_min\":");
    reveal_strlit("},\"server_time_ms\":");
    reveal_strlit(",\"tip_height\":");
    reveal_strlit("}}");
    let l1 = "{\"type\":\"stats\",\"v\":"@;
    let lid = ",\"id\":\""@;
    let lses = ",\"payload\":{\"session_id\":\""@;
    let lspm = ",\"submits_per_minute\":"@;
    let lmps = ",\"messages_per_second\":"@;
    let lpol = ",\"policy\":{\"job_ttl_ms\":"@;
    let lmspm = ",\"max_submits_per_min\":"@;
    let lmshm = ",\"max_shares_per_min\":"@;
    let lstm = "},\"server_time_ms\":"@;
    let ltip = ",\"tip_height\":"@;
    let end = "}}"@;
    let q9a = ltip + (dec_u64(p1.tip_height as nat) + end);
    let q9b = ltip + (dec_u64(p2.tip_height as nat) + end);
    let q8a = lstm + (dec_u64(p1.server_time_ms as nat) + q9a);
    let q8b = lstm + (dec_u64(p2.server_time_ms as nat) + q9b);
    let q7a = lmshm + (dec_u64(p1.policy.max_shares_per_min as nat) + q8a);
    let q7b = lmshm + (dec_u64(p2.policy.max_shares_per_min as nat) + q8b);
    let q6a = lmspm + (dec_u64(p1.policy.max_submits_per_min as nat) + q7a);
    let q6b = lmspm + (dec_u64(p2.policy.max_submits_per_min as nat) + q7b);
    let q5a = lpol + (dec_u64(p1.policy.job_ttl_ms as nat) + q6a);
    let q5b = lpol + (dec_u64(p2.policy.job_ttl_ms as nat) + q6b);
    let q4a = lmps + (dec_u64(p1.messages_per_second as nat) + q5a);
    let q4b = lmps + (dec_u64(p2.messages_per_second as nat) + q5b);
    let q3a = lspm + (dec_u64(p1.submits_per_minute as nat) + q4a);
    let q3b = lspm + (dec_u64(p2.submits_per_minute as nat) + q4b);
    let u1 = lses + (jstr_body(p1.session_id@) + q3a);
    let u2 = lses + (jstr_body(p2.session_id@) + q3b);
    let t1 = opt_str_field(lid, opt_view(id1)) + u1;
    let t2 = opt_str_field(lid, opt_view(id2)) + u2;
    let r1 = dec_u64(v1 as nat) + t1;
    let r2 = dec_u64(v2 as nat) + t2;
    assert(Seq::<char>::empty() + l1 =~= l1);
    lemma_reassoc20(
        Seq::<char>::empty() + l1,
        dec_u64(v1 as nat),
        opt_str_field(lid, opt_view(id1)),
        lses,
        jstr_body(p1.session_id@),
        lspm,
        dec_u64(p1.submits_per_minute as nat),
        lmps,
        dec_u64(p1.messages_per_second as nat),
        lpol,
        dec_u64(p1.policy.job_ttl_ms as nat),
        lmspm,
        dec_u64(p1.policy.max_submits_per_min as nat),
        lmshm,
        dec_u64(p1.policy.max_shares_per_min as nat),
        lstm,
        dec_u64(p1.server_time_ms as nat),
        ltip,
        dec_u64(p1.tip_height as nat),
        end,
    );
    lemma_reassoc20(
        Seq::<char>::empty() + l1,
        dec_u64(v2 as nat),
        opt_str_field(lid, opt_view(id2)),
        lses,
        jstr_body(p2.session_id@),
        lspm,
        dec_u64(p2.submits_per_minute as nat),
        lmps,
        dec_u64(p2.messages_per_second as nat),
        lpol,
        dec_u64(p2.policy.job_ttl_ms as nat),
        lmspm,
        dec_u64(p2.policy.max_submits_per_min as nat),
        lmshm,
        dec_u64(p2.policy.max_shares_per_min as nat),
        lstm,
        dec_u64(p2.server_time_ms as nat),
        ltip,
        dec_u64(p2.tip_height as nat),
        end,
    );
    assert(spec_ser_server(m1) == l1 + r1);
    assert(spec_ser_server(m2) == l1 + r2);
    lemma_concat_peel(l1, r1, r2);
    assert(t1[0] == ',' && t2[0] == ',');
    lemma_dec_prefix_free(v1 as nat, v2 as nat, t1, t2);
    match (id1, id2) {
        (Some(s1), Some(s2)) => {
            assert(t1 =~= lid + (jstr_body(s1@) + u1));
            assert(t2 =~= lid + (jstr_body(s2@) + u2));
            lemma_concat_peel(lid, jstr_body(s1@) + u1, jstr_body(s2@) + u2);
            lemma_jstr_prefix_free(s1@, u1, s2@, u2);
        },
        (None, None) => {
            assert(t1 =~= u1);
            assert(t2 =~= u2);
        },
        (Some(s1), None) => {
            assert(t1[2] == 'i');
            assert(t2[2] == 'p');
            assert(false);
        },
        (None, Some(s2)) => {
            assert(t1[2] == 'p');
            assert(t2[2] == 'i');
            assert(false);
        },
    }
    assert(u1 == u2);
    lemma_concat_peel(lses, jstr_body(p1.session_id@) + q3a, jstr_body(p2.session_id@) + q3b);
    lemma_jstr_prefix_free(p1.session_id@, q3a, p2.session_id@, q3b);
    lemma_concat_peel(
        lspm,
        dec_u64(p1.submits_per_minute as nat) + q4a,
        dec_u64(p2.submits_per_minute as nat) + q4b,
    );
    assert(q4a[0] == ',' && q4b[0] == ',');
    lemma_dec_prefix_free(p1.submits_per_minute as nat, p2.submits_per_minute as nat, q4a, q4b);
    lemma_concat_peel(
        lmps,
        dec_u64(p1.messages_per_second as nat) + q5a,
        dec_u64(p2.messages_per_second as nat) + q5b,
    );
    assert(q5a[0] == ',' && q5b[0] == ',');
    lemma_dec_prefix_free(p1.messages_per_second as nat, p2.messages_per_second as nat, q5a, q5b);
    lemma_concat_peel(
        lpol,
        dec_u64(p1.policy.job_ttl_ms as nat) + q6a,
        dec_u64(p2.policy.job_ttl_ms as nat) + q6b,
    );
    assert(q6a[0] == ',' && q6b[0] == ',');
    lemma_dec_prefix_free(p1.policy.job_ttl_ms as nat, p2.policy.job_ttl_ms as nat, q6a, q6b);
    lemma_concat_peel(
        lmspm,
        dec_u64(p1.policy.max_submits_per_min as nat) + q7a,
        dec_u64(p2.policy.max_submits_per_min as nat) + q7b,
    );
    assert(q7a[0] == ',' && q7b[0] == ',');
    lemma_dec_prefix_free(
        p1.policy.max_submits_per_min as nat,
        p2.policy.max_submits_per_min as nat,
        q7a,
        q7b,
    );
    lemma_concat_peel(
        lmshm,
        dec_u64(p1.policy.max_shares_per_min as nat) + q8a,
        dec_u64(p2.policy.max_shares_per_min as nat) + q8b,
    );
    assert(q8a[0] == '}' && q8b[0] == '}');
    lemma_dec_prefix_free(
        p1.policy.max_shares_per_min as nat,
        p2.policy.max_shares_per_min as nat,
        q8a,
        q8b,
    );
    lemma_concat_peel(
        lstm,
        dec_u64(p1.server_time_ms as nat) + q9a,
        dec_u64(p2.server_time_ms as nat) + q9b,
    );
    assert(q9a[0] == ',' && q9b[0] == ',');
    lemma_dec_prefix_free(p1.server_time_ms as nat, p2.server_time_ms as nat, q9a, q9b);
    lemma_concat_peel(
        ltip,
        dec_u64(p1.tip_height as nat) + end,
        dec_u64(p2.tip_height as nat) + end,
    );
    assert(end[0] == '}');
    lemma_dec_prefix_free(p1.tip_height as nat, p2.tip_height as nat, end, end);
}


/// The field-by-field peel of two job frames printing alike.
#[verifier::rlimit(100)]
proof fn lemma_jobmsg_parts(
    v1: u8,
    id1: Option<String>,
    p1: JobPayload,
    v2: u8,
    id2: Option<String>,
    p2: JobPayload,
    m1: ServerMessage,
    m2: ServerMessage,
)
    requires
        m1 == (ServerMessage::Job { v: v1, id: id1, payload: p1 }),
        m2 == (ServerMessage::Job { v: v2, id: id2, payload: p2 }),
        spec_ser_server(m1) == spec_ser_server(m2),
    ensures
        v1 == v2,
        opt_view(id1) == opt_view(id2),
        p1.job_id@ == p2.job_id@,
        p1.blob_hex@ == p2.blob_hex@,
        p1.reserved_offset == p2.reserved_offset,
        p1.reserved_value_hex@ == p2.reserved_value_hex@,
        p1.target_hex@ == p2.target_hex@,
        p1.height == p2.height,
        p1.seed_hash@ == p2.seed_hash@,
        p1.expires_at_ms == p2.expires_at_ms,
        opt_view(p1.share_target_hex) == opt_view(p2.share_target_hex),
        p1.algo@ == p2.algo@,
{
    reveal_strlit("{\"type\":\"job\",\"v\":");
    reveal_strlit(",\"id\":\"");
    reveal_strlit(",\"payload\":{\"job_id\":\"");
    reveal_strlit(",\"blob_hex\":\"");
    reveal_strlit(",\"reserved_offset\":");
    reveal_strlit(",\"reserved_value_hex\":\"");
    reveal_strlit(",\"target_hex\":\"");
    reveal_strlit(",\"height\":");
    reveal_strlit(",\"seed_hash\":\"");
    reveal_strlit(",\"expires_at_ms\":");
    reveal_strlit(",\"share_target_hex\":\"");
    reveal_strlit(",\"algo\":\"");
    reveal_strlit("}}");
    let l1 = "{\"type\":\"job\",\"v\":"@;
    let lid = ",\"id\":\""@;
    let ljid = ",\"payload\":{\"job_id\":\""@;
    let lbh = ",\"blob_hex\":\""@;
    let lro = ",\"reserved_offset\":"@;
    let lrvh = ",\"reserved_value_hex\":\""@;
    let ltgt = ",\"target_hex\":\""@;
    let lh = ",\"height\":"@;
    let lsh = ",\"seed_hash\":\""@;
    let lexp = ",\"expires_at_ms\":"@;
    let lsth = ",\"share_target_hex\":\""@;
    let lalgo = ",\"algo\":\""@;
    let end = "}}"@;
    let za = lalgo + (jstr_body(p1.algo@) + end);
    let zb = lalgo + (jstr_body(p2.algo@) + end);
    let ya = opt_str_field(lsth, opt_view(p1.share_target_hex)) + za;
    let yb = opt_str_field(lsth, opt_view(p2.share_target_hex)) + zb;
    let xa = lexp + (dec_u64(p1.expires_at_ms as nat) + ya);
    let xb = lexp + (dec_u64(p2.expires_at_ms as nat) + yb);
    let wa = lsh + (jstr_body(p1.seed_hash@) + xa);
    let wb = lsh + (jstr_body(p2.seed_hash@) + xb);
    let va = lh + (dec_u64(p1.height as nat) + wa);
    let vb = lh + (dec_u64(p2.height as nat) + wb);
    let ta2 = ltgt + (jstr_body(p1.target_hex@) + va);
    let tb2 = ltgt + (jstr_body(p2.target_hex@) + vb);
    let sa = lrvh + (jstr_body(p1.reserved_value_hex@) + ta2);
    let sb = lrvh + (jstr_body(p2.reserved_value_hex@) + tb2);
    let ra2 = lro + (dec_u64(p1.reserved_offset as nat) + sa);
    let rb2 = lro + (dec_u64(p2.reserved_offset as nat) + sb);
    let qa = lbh + (jstr_body(p1.blob_hex@) + ra2);
    let qb = lbh + (jstr_body(p2.blob_hex@) + rb2);
    let u1 = ljid + (jstr_body(p1.job_id@) + qa);
    let u2 = ljid + (jstr_body(p2.job_id@) + qb);
    let t1 = opt_str_field(lid, opt_view(id1)) + u1;
    let t2 = opt_str_field(lid, opt_view(id2)) + u2;
    let r1 = dec_u64(v1 as nat) + t1;
    let r2 = dec_u64(v2 as nat) + t2;
    assert(Seq::<char>::empty() + l1 =~= l1);
    lemma_reassoc23(
        Seq::<char>::empty() + l1,
        dec_u64(v1 as nat),
        opt_str_field(lid, opt_view(id1)),
        ljid,
        jstr_body(p1.job_id@),
        lbh,
        jstr_body(p1.blob_hex@),
        lro,
        dec_u64(p1.reserved_offset as nat),
        lrvh,
        jstr_body(p1.reserved_value_hex@),
        ltgt,
        jstr_body(p1.target_hex@),
        lh,
        dec_u64(p1.height as nat),
        lsh,
        jstr_body(p1.seed_hash@),
        lexp,
        dec_u64(p1.expires_at_ms as nat),
        opt_str_field(lsth, opt_view(p1.share_target_hex)),
        lalgo,
        jstr_body(p1.algo@),
        end,
    );
    lemma_reassoc23(
        Seq::<char>::empty() + l1,
        dec_u64(v2 as nat),
        opt_str_field(lid, opt_view(id2)),
        ljid,
        jstr_body(p2.job_id@),
        lbh,
        jstr_body(p2.blob_hex@),
        lro,
        dec_u64(p2.reserved_offset as nat),
        lrvh,
        jstr_body(p2.reserved_value_hex@),
        ltgt,
        jstr_body(p2.target_hex@),
        lh,
        dec_u64(p2.height as nat),
        lsh,
        jstr_body(p2.seed_hash@),
        lexp,
        dec_u64(p2.expires_at_ms as nat),
        opt_str_field(lsth, opt_view(p2.share_target_hex)),
        lalgo,
        jstr_body(p2.algo@),
        end,
    );
    assert(spec_ser_server(m1) == l1 + r1);
    assert(spec_ser_server(m2) == l1 + r2);
    lemma_concat_peel(l1, r1, r2);
    assert(t1[0] == ',' && t2[0] == ',');
    lemma_dec_prefix_free(v1 as nat, v2 as nat, t1, t2);
    match (id1, id2) {
        (Some(s1), Some(s2)) => {
            assert(t1 =~= lid + (jstr_body(s1@) + u1));
            assert(t2 =~= lid + (jstr_body(s2@) + u2));
            lemma_concat_peel(lid, jstr_body(s1@) + u1, jstr_body(s2@) + u2);
            lemma_jstr_prefix_free(s1@, u1, s2@, u2);
        },
        (None, None) => {
            assert(t1 =~= u1);
            assert(t2 =~= u2);
        },
        (Some(s1), None) => {
            assert(t1[2] == 'i');
            assert(t2[2] == 'p');
            assert(false);
        },
        (None, Some(s2)) => {
            assert(t1[2] == 'p');
            assert(t2[2] == 'i');
            assert(false);
        },
    }
    assert(u1 == u2);
    lemma_concat_peel(ljid, jstr_body(p1.job_id@) + qa, jstr_body(p2.job_id@) + qb);
    lemma_jstr_prefix_free(p1.job_id@, qa, p2.job_id@, qb);
    lemma_concat_peel(lbh, jstr_body(p1.blob_hex@) + ra2, jstr_body(p2.blob_hex@) + rb2);
    lemma_jstr_prefix_free(p1.blob_hex@, ra2, p2.blob_hex@, rb2);
    lemma_concat_peel(
        lro,
        dec_u64(p1.reserved_offset as nat) + sa,
        dec_u64(p2.reserved_offset as nat) + sb,
    );
    assert(sa[0] == ',' && sb[0] == ',');
    lemma_dec_prefix_free(p1.reserved_offset as nat, p2.reserved_offset as nat, sa, sb);
    lemma_concat_peel(
        lrvh,
        jstr_body(p1.reserved_value_hex@) + ta2,
        jstr_body(p2.reserved_value_hex@) + tb2,
    );
    lemma_jstr_prefix_free(p1.reserved_value_hex@, ta2, p2.reserved_value_hex@, tb2);
    lemma_concat_peel(ltgt, jstr_body(p1.target_hex@) + va, jstr_body(p2.target_hex@) + vb);
    lemma_jstr_prefix_free(p1.target_hex@, va, p2.target_hex@, vb);
    lemma_concat_peel(lh, dec_u64(p1.height as nat) + wa, dec_u64(p2.height as nat) + wb);
    assert(wa[0] == ',' && wb[0] == ',');
    lemma_dec_prefix_free(p1.height as nat, p2.height as nat, wa, wb);
    lemma_concat_peel(lsh, jstr_body(p1.seed_hash@) + xa, jstr_body(p2.seed_hash@) + xb);
    lemma_jstr_prefix_free(p1.seed_hash@, xa, p2.seed_hash@, xb);
    lemma_concat_peel(
        lexp,
        dec_u64(p1.expires_at_ms as nat) + ya,
        dec_u64(p2.expires_at_ms as nat) + yb,
    );
    assert(ya[0] == ',' && yb[0] == ',') by {
        match p1.share_target_hex {
            Some(_) => {},
            None => {
                assert(ya =~= za);
            },
        }
        match p2.share_target_hex {
            Some(_) => {},
            None => {
                assert(yb =~= zb);
            },
        }
    }
    lemma_dec_prefix_free(p1.expires_at_ms as nat, p2.expires_at_ms as nat, ya, yb);
    match (p1.share_target_hex, p2.share_target_hex) {
        (Some(s1), Some(s2)) => {
            assert(ya =~= lsth + (jstr_body(s1@) + za));
            assert(yb =~= lsth + (jstr_body(s2@) + zb));
            lemma_concat_peel(lsth, jstr_body(s1@) + za, jstr_body(s2@) + zb);
            lemma_jstr_prefix_free(s1@, za, s2@, zb);
        },
        (None, None) => {
            assert(ya =~= za);
            assert(yb =~= zb);
        },
        (Some(s1), None) => {
            assert(ya[2] == 's');
            assert(yb =~= zb);
            assert(yb[2] == 'a');
            assert(false);
        },
        (None, Some(s2)) => {
            assert(yb[2] == 's');
            assert(ya =~= za);
            assert(ya[2] == 'a');
            assert(false);
        },
    }
    assert(za == zb);
    lemma_concat_peel(lalgo, jstr_body(p1.algo@) + end, jstr_body(p2.algo@) + end);
    lemma_jstr_prefix_free(p1.algo@, end, p2.algo@, end);
}

/// The field-by-field peel of two submit-result frames printing alike.
#[verifier::rlimit(100)]
proof fn lemma_submit_result_parts(
    v1: u8,
    id1: String,
    p1: SubmitResultPayload,
    v2: u8,
    id2: String,
    p2: SubmitResultPayload,
    m1: ServerMessage,
    m2: ServerMessage,
)
    requires
        m1 == (ServerMessage::SubmitResult { v: v1, id: id1, payload: p1 }),
        m2 == (ServerMessage::SubmitResult { v: v2, id: id2, payload: p2 }),
        spec_ser_server(m1) == spec_ser_server(m2),
    ensures
        v1 == v2,
        id1@ == id2@,
        p1.status == p2.status,
        opt_view(p1.message) == opt_view(p2.message),
{
    reveal_strlit("{\"type\":\"submit_result\",\"v\":");
    reveal_strlit(",\"id\":\"");
    reveal_strlit(",\"payload\":{\"status\":\"");
    reveal_strlit(",\"message\":\"");
    reveal_strlit("}}");
    let l1 = "{\"type\":\"submit_result\",\"v\":"@;
    let l2 = ",\"id\":\""@;
    let lst = ",\"payload\":{\"status\":\""@;
    let lmsg = ",\"message\":\""@;
    let end = "}}"@;
    let w1 = opt_str_field(lmsg, opt_view(p1.message)) + end;
    let w2 = opt_str_field(lmsg, opt_view(p2.message)) + end;
    let u1 = lst + (status_unit(p1.status) + w1);
    let u2 = lst + (status_unit(p2.status) + w2);
    let t1 = l2 + (jstr_body(id1@) + u1);
    let t2 = l2 + (jstr_body(id2@) + u2);
    let r1 = dec_u64(v1 as nat) + t1;
    let r2 = dec_u64(v2 as nat) + t2;
    assert(spec_ser_server(m1) =~= l1 + r1);
    assert(spec_ser_server(m2) =~= l1 + r2);
    lemma_concat_peel(l1, r1, r2);
    assert(t1[0] == ',' && t2[0] == ',');
    lemma_dec_prefix_free(v1 as nat, v2 as nat, t1, t2);
    lemma_concat_peel(l2, jstr_body(id1@) + u1, jstr_body(id2@) + u2);
    lemma_jstr_prefix_free(id1@, u1, id2@, u2);
    lemma_concat_peel(lst, status_unit(p1.status) + w1, status_unit(p2.status) + w2);
    lemma_status_unit_prefix_free(p1.status, p2.status, w1, w2);
    match (p1.message, p2.message) {
        (Some(s1), Some(s2)) => {
            assert(w1 =~= lmsg + (jstr_body(s1@) + end));
            assert(w2 =~= lmsg + (jstr_body(s2@) + end));
            lemma_concat_peel(lmsg, jstr_body(s1@) + end, jstr_body(s2@) + end);
            lemma_jstr_prefix_free(s1@, end, s2@, end);
        },
        (None, None) => {},
        (Some(s1), None) => {
            assert(w1[0] == ',');
            assert(w2 =~= end);
            assert(w2[0] == '}');
            assert(false);
        },
        (None, Some(s2)) => {
            assert(w2[0] == ',');
            assert(w1 =~= end);
            assert(w1[0] == '}');
            assert(false);
        },
    }
}

/// The field-by-field peel of two error frames printing alike.
#[verifier::rlimit(100)]
proof fn lemma_errmsg_parts(
    v1: u8,
    id1: Option<String>,
    p1: ErrorPayload,
    v2: u8,
    id2: Option<String>,
    p2: ErrorPayload,
    m1: ServerMessage,
    m2: ServerMessage,
)
    requires
        m1 == (ServerMessage::Error { v: v1, id: id1, payload: p1 }),
        m2 == (ServerMessage::Error { v: v2, id: id2, payload: p2 }),
        spec_ser_server(m1) == spec_ser_server(m2),
    ensures
        v1 == v2,
        opt_view(id1) == opt_view(id2),
        p1.code == p2.code,
        p1.message@ == p2.message@,
{
    reveal_strlit("{\"type\":\"error\",\"v\":");
    reveal_strlit(",\"id\":\"");
    reveal_strlit(",\"payload\":{\"code\":\"");
    reveal_strlit(",\"message\":\"");
    reveal_strlit("}}");
    let l1 = "{\"type\":\"error\",\"v\":"@;
    let lid = ",\"id\":\""@;
    let lcode = ",\"payload\":{\"code\":\""@;
    let lmsg = ",\"message\":\""@;
    let end = "}}"@;
    let w1 = lmsg + (jstr_body(p1.message@) + end);
    let w2 = lmsg + (jstr_body(p2.message@) + end);
    let u1 = lcode + (code_unit(p1.code) + w1);
    let u2 = lcode + (code_unit(p2.code) + w2);
    let t1 = opt_str_field(lid, opt_view(id1)) + u1;
    let t2 = opt_str_field(lid, opt_view(id2)) + u2;
    let r1 = dec_u64(v1 as nat) + t1;
    let r2 = dec_u64(v2 as nat) + t2;
    assert(spec_ser_server(m1) =~= l1 + r1);
    assert(spec_ser_server(m2) =~= l1 + r2);
    lemma_concat_peel(l1, r1, r2);
    assert(t1[0] == ',' && t2[0] == ',');
    lemma_dec_prefix_free(v1 as nat, v2 as nat, t1, t2);
    match (id1, id2) {
        (Some(s1), Some(s2)) => {
            assert(t1 =~= lid + (jstr_body(s1@) + u1));
            assert(t2 =~= lid + (jstr_body(s2@) + u2));
            lemma_concat_peel(lid, jstr_body(s1@) + u1, jstr_body(s2@) + u2);
            lemma_jstr_prefix_free(s1@, u1, s2@, u2);
        },
        (None, None) => {
            assert(t1 =~= u1);
            assert(t2 =~= u2);
        },
        (Some(s1), None) => {
            assert(t1[2] == 'i');
            assert(t2[2] == 'p');
            assert(false);
        },
        (None, Some(s2)) => {
            assert(t1[2] == 'p');
            assert(t2[2] == 'i');
            assert(false);
        },
    }
    assert(u1 == u2);
    lemma_concat_peel(lcode, code_unit(p1.code) + w1, code_unit(p2.code) + w2);
    lemma_code_unit_prefix_free(p1.code, p2.code, w1, w2);
    lemma_concat_peel(lmsg, jstr_body(p1.message@) + end, jstr_body(p2.message@) + end);
    lemma_jstr_prefix_free(p1.message@, end, p2.message@, end);
}

/// The field-by-field peel of two pong frames printing alike.
#[verifier::rlimit(100)]
proof fn lemma_pong_parts(
    v1: u8,
    id1: String,
    p1: PongPayload,
    v2: u8,
    id2: String,
    p2: PongPayload,
    m1: ServerMessage,
    m2: ServerMessage,
)
    requires
        m1 == (ServerMessage::Pong { v: v1, id: id1, payload: p1 }),
        m2 == (ServerMessage::Pong { v: v2, id: id2, payload: p2 }),
        spec_ser_server(m1) == spec_ser_server(m2),
    ensures
        v1 == v2,
        id1@ == id2@,
{
    reveal_strlit("{\"type\":\"pong\",\"v\":");
    reveal_strlit(",\"id\":\"");
    reveal_strlit(",\"payload\":{}}");
    let l1 = "{\"type\":\"pong\",\"v\":"@;
    let l2 = ",\"id\":\""@;
    let l5 = ",\"payload\":{}}"@;
    let t1 = l2 + (jstr_body(id1@) + l5);
    let t2 = l2 + (jstr_body(id2@) + l5);
    let r1 = dec_u64(v1 as nat) + t1;
    let r2 = dec_u64(v2 as nat) + t2;
    assert(spec_ser_server(m1) =~= l1 + r1);
    assert(spec_ser_server(m2) =~= l1 + r2);
    lemma_concat_peel(l1, r1, r2);
    assert(t1[0] == ',' && t2[0] == ',');
    lemma_dec_prefix_free(v1 as nat, v2 as nat, t1, t2);
    lemma_concat_peel(l2, jstr_body(id1@) + l5, jstr_body(id2@) + l5);
    lemma_jstr_prefix_free(id1@, l5, id2@, l5);
}


/// Serialize, then parse: whatever the parser returns is the original
/// message, type and fields alike.  (That the parser does return on every
/// canonical print is exercised by the test suite.)
pub fn round_trip_client(m: &ClientMessage) -> (r: Option<ClientMessage>)
    ensures
        r matches Some(m2) ==> client_msg_eq(*m, m2),
{
    let s = serialize_client(m);
    let out = parse_client(s.as_str());
    proof {
        if out is Some {
            lemma_ser_client_injective(*m, out->Some_0);
        }
    }
    out
}

/// Serialize, then parse, for server frames: whatever the parser returns is
/// the original message, type and fields alike.
pub fn round_trip_server(m: &ServerMessage) -> (r: Option<ServerMessage>)
    ensures
        r matches Some(m2) ==> server_msg_eq(*m, m2),
{
    let s = serialize_server(m);
    let out = parse_server(s.as_str());
    proof {
        if out is Some {
            lemma_ser_server_injective(*m, out->Some_0);
        }
    }
    out
}

} // verus!
