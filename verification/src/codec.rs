//! Wire codec: the exact line-oriented JSON-RPC text forms for requests and
//! notifications, and the classification of response lines.
//!
//! Encoding is verified down to the character: `request_text` and
//! `notification_text` state the precise sequence of characters a message is
//! made of, and the executable encoders are proved to produce it. String
//! content is escaped so that an encoded message never contains the line
//! delimiter, which is what keeps one message on one line.

use vstd::prelude::*;

use crate::McpError;

verus! {

/// The escaped form of one character of JSON string content: the short
/// escapes of the JSON grammar, every other character unchanged.
pub open spec fn escaped_char(c: char) -> Seq<char> {
    if c == '"' {
        seq!['\\', '"']
    } else if c == '\\' {
        seq!['\\', '\\']
    } else if c == '\n' {
        seq!['\\', 'n']
    } else if c == '\r' {
        seq!['\\', 'r']
    } else if c == '\t' {
        seq!['\\', 't']
    } else if c == '\u{0008}' {
        seq!['\\', 'b']
    } else if c == '\u{000C}' {
        seq!['\\', 'f']
    } else {
        seq![c]
    }
}

/// The escaped form of a whole string: each character escaped in order.
pub open spec fn escape_seq(s: Seq<char>) -> Seq<char>
    decreases s.len(),
{
    if s.len() == 0 {
        Seq::empty()
    } else {
        escaped_char(s[0]) + escape_seq(s.skip(1))
    }
}

/// Escaping commutes with appending one character at the end.
pub proof fn lemma_escape_seq_push(s: Seq<char>, c: char)
    ensures
        escape_seq(s.push(c)) == escape_seq(s) + escaped_char(c),
    decreases s.len(),
{
    if s.len() == 0 {
        assert(s.push(c)[0] == c);
        assert(s.push(c).skip(1) =~= Seq::<char>::empty());
        assert(escape_seq(Seq::<char>::empty()) == Seq::<char>::empty());
        assert(escape_seq(s.push(c)) == escaped_char(c) + escape_seq(Seq::<char>::empty()));
        assert(escape_seq(s.push(c)) =~= escape_seq(s) + escaped_char(c));
    } else {
        assert(s.push(c)[0] == s[0]);
        assert(s.push(c).skip(1) =~= s.skip(1).push(c));
        lemma_escape_seq_push(s.skip(1), c);
        assert(escape_seq(s.push(c)) =~= escape_seq(s) + escaped_char(c));
    }
}

/// Prepends one decoded character to an unescaping that may have failed.
pub open spec fn unescape_cons(c: char, rest: Option<Seq<char>>) -> Option<Seq<char>> {
    match rest {
        Some(t) => Some(seq![c] + t),
        None => None,
    }
}

/// The inverse reading of escaped JSON string content: an escape pair decodes
/// to the character it stands for, any other character decodes to itself, and
/// a dangling or unknown escape fails.
pub open spec fn unescape_seq(s: Seq<char>) -> Option<Seq<char>>
    decreases s.len(),
{
    if s.len() == 0 {
        Some(Seq::empty())
    } else if s[0] == '\\' {
        if s.len() < 2 {
            None
        } else {
            let c = s[1];
            let rest = unescape_seq(s.skip(2));
            if c == '"' {
                unescape_cons('"', rest)
            } else if c == '\\' {
                unescape_cons('\\', rest)
            } else if c == 'n' {
                unescape_cons('\n', rest)
            } else if c == 'r' {
                unescape_cons('\r', rest)
            } else if c == 't' {
                unescape_cons('\t', rest)
            } else if c == 'b' {
                unescape_cons('\u{0008}', rest)
            } else if c == 'f' {
                unescape_cons('\u{000C}', rest)
            } else {
                None
            }
        }
    } else {
        unescape_cons(s[0], unescape_seq(s.skip(1)))
    }
}

/// Escaping is lossless: unescaping an escaped string gives back exactly the
/// string, whatever characters it holds. This is the round-trip law for the
/// string content of encoded messages.
pub proof fn lemma_unescape_escape(s: Seq<char>)
    ensures
        unescape_seq(escape_seq(s)) == Some(s),
    decreases s.len(),
{
    if s.len() == 0 {
    } else {
        lemma_unescape_escape(s.skip(1));
        let head = escaped_char(s[0]);
        let e = escape_seq(s);
        assert(e == head + escape_seq(s.skip(1)));
        assert(e.skip(head.len() as int) =~= escape_seq(s.skip(1)));
        assert(e[0] == head[0]);
        if head.len() == 2 {
            assert(e[1] == head[1]);
            assert(e[0] == '\\');
            assert(unescape_seq(e) == unescape_cons(s[0], unescape_seq(e.skip(2))));
        } else {
            assert(head =~= seq![s[0]]);
            assert(e[0] == s[0]);
            assert(s[0] != '\\');
            assert(unescape_seq(e) == unescape_cons(s[0], unescape_seq(e.skip(1))));
        }
        assert(seq![s[0]] + s.skip(1) =~= s);
    }
}

/// A text that contains no line delimiter, so it fits on one framed line.
pub open spec fn newline_free(s: Seq<char>) -> bool {
    forall|i: int| 0 <= i < s.len() ==> s[i] != '\n'
}

/// Escaped string content never contains a line delimiter: the one character
/// that could break framing is rewritten to the two characters `\` `n`.
pub proof fn lemma_escape_seq_newline_free(s: Seq<char>)
    ensures
        newline_free(escape_seq(s)),
    decreases s.len(),
{
    if s.len() == 0 {
    } else {
        lemma_escape_seq_newline_free(s.skip(1));
        assert forall|i: int| 0 <= i < escape_seq(s).len() implies escape_seq(s)[i] != '\n' by {
            let head = escaped_char(s[0]);
            if i < head.len() {
                assert(escape_seq(s)[i] == head[i]);
            } else {
                assert(escape_seq(s)[i] == escape_seq(s.skip(1))[i - head.len()]);
            }
        }
    }
}

/// The decimal digit character for one digit value.
pub open spec fn dec_digit(d: int) -> char {
    if d == 0 {
        '0'
    } else if d == 1 {
        '1'
    } else if d == 2 {
        '2'
    } else if d == 3 {
        '3'
    } else if d == 4 {
        '4'
    } else if d == 5 {
        '5'
    } else if d == 6 {
        '6'
    } else if d == 7 {
        '7'
    } else if d == 8 {
        '8'
    } else {
        '9'
    }
}

/// The decimal text of a number, most significant digit first, no leading
/// zeros except for the number zero itself.
pub open spec fn dec_str(n: nat) -> Seq<char>
    decreases n,
{
    if n < 10 {
        seq![dec_digit(n as int)]
    } else {
        dec_str(n / 10) + seq![dec_digit((n % 10) as int)]
    }
}

/// Decimal text consists of digits only, never a line delimiter.
pub proof fn lemma_dec_str_newline_free(n: nat)
    ensures
        newline_free(dec_str(n)),
    decreases n,
{
    if n < 10 {
    } else {
        lemma_dec_str_newline_free(n / 10);
        assert forall|i: int| 0 <= i < dec_str(n).len() implies dec_str(n)[i] != '\n' by {
            let hi = dec_str(n / 10);
            if i < hi.len() {
                assert(dec_str(n)[i] == hi[i]);
            } else {
                assert(dec_str(n)[i] == dec_digit((n % 10) as int));
            }
        }
    }
}

/// Whether a character is a decimal digit.
pub open spec fn is_dec_digit(c: char) -> bool {
    c == '0' || c == '1' || c == '2' || c == '3' || c == '4' || c == '5' || c == '6' || c == '7'
        || c == '8' || c == '9'
}

/// The value of one decimal digit character.
pub open spec fn digit_value(c: char) -> nat {
    if c == '0' {
        0
    } else if c == '1' {
        1
    } else if c == '2' {
        2
    } else if c == '3' {
        3
    } else if c == '4' {
        4
    } else if c == '5' {
        5
    } else if c == '6' {
        6
    } else if c == '7' {
        7
    } else if c == '8' {
        8
    } else {
        9
    }
}

/// The number read from a run of decimal digit characters, most significant
/// first.
pub open spec fn dec_value(s: Seq<char>) -> nat
    decreases s.len(),
{
    if s.len() == 0 {
        0
    } else {
        dec_value(s.drop_last()) * 10 + digit_value(s.last())
    }
}

/// Decimal text consists of digit characters only.
pub proof fn lemma_dec_str_digits(n: nat)
    ensures
        forall|i: int| 0 <= i < dec_str(n).len() ==> is_dec_digit(#[trigger] dec_str(n)[i]),
    decreases n,
{
    if n < 10 {
    } else {
        lemma_dec_str_digits(n / 10);
        assert forall|i: int| 0 <= i < dec_str(n).len() implies is_dec_digit(
            #[trigger] dec_str(n)[i],
        ) by {
            let hi = dec_str(n / 10);
            if i < hi.len() {
                assert(dec_str(n)[i] == hi[i]);
            } else {
                assert(dec_str(n)[i] == dec_digit((n % 10) as int));
            }
        }
    }
}

/// Reading back the decimal text of a number gives the number: printing is
/// lossless.
pub proof fn lemma_dec_value_of_dec_str(n: nat)
    ensures
        dec_value(dec_str(n)) == n,
    decreases n,
{
    if n < 10 {
        assert(dec_str(n) == seq![dec_digit(n as int)]);
        assert(dec_str(n).drop_last() =~= Seq::<char>::empty());
        assert(dec_value(Seq::<char>::empty()) == 0);
        assert(dec_str(n).last() == dec_digit(n as int));
        assert(dec_value(dec_str(n)) == digit_value(dec_digit(n as int)));
    } else {
        lemma_dec_value_of_dec_str(n / 10);
        let s = dec_str(n);
        assert(s == dec_str(n / 10) + seq![dec_digit((n % 10) as int)]);
        assert(s.drop_last() =~= dec_str(n / 10));
        assert(s.last() == dec_digit((n % 10) as int));
        assert(digit_value(dec_digit((n % 10) as int)) == n % 10);
        assert(dec_value(s) == (n / 10) * 10 + n % 10);
        assert((n / 10) * 10 + n % 10 == n) by (nonlinear_arith);
    }
}

/// Relies on `String::push` of std: appends exactly one character.
#[verifier::external_body]
fn push_char(s: &mut String, c: char)
    ensures
        final(s)@ == old(s)@ + seq![c],
{
    s.push(c);
}

/// Appends the escaped form of one character.
fn append_escaped(out: &mut String, c: char)
    ensures
        final(out)@ == old(out)@ + escaped_char(c),
{
    if c == '"' {
        proof {
            reveal_strlit("\\\"");
        }
        out.append("\\\"");
    } else if c == '\\' {
        proof {
            reveal_strlit("\\\\");
        }
        out.append("\\\\");
    } else if c == '\n' {
        proof {
            reveal_strlit("\\n");
        }
        out.append("\\n");
    } else if c == '\r' {
        proof {
            reveal_strlit("\\r");
        }
        out.append("\\r");
    } else if c == '\t' {
        proof {
            reveal_strlit("\\t");
        }
        out.append("\\t");
    } else if c == '\u{0008}' {
        proof {
            reveal_strlit("\\b");
        }
        out.append("\\b");
    } else if c == '\u{000C}' {
        proof {
            reveal_strlit("\\f");
        }
        out.append("\\f");
    } else {
        push_char(out, c);
    }
    assert(final(out)@ =~= old(out)@ + escaped_char(c));
}

/// Escapes a whole string for use as JSON string content.
pub fn escape_string(s: &str) -> (out: String)
    ensures
        out@ == escape_seq(s@),
{
    let n = s.unicode_len();
    let mut out = String::new();
    let mut i: usize = 0;
    while i < n
        invariant
            n == s@.len(),
            i <= n,
            out@ == escape_seq(s@.subrange(0, i as int)),
        decreases n - i,
    {
        let c = s.get_char(i);
        append_escaped(&mut out, c);
        proof {
            assert(s@.subrange(0, i as int).push(s@[i as int]) =~= s@.subrange(0, i + 1 as int));
            lemma_escape_seq_push(s@.subrange(0, i as int), s@[i as int]);
        }
        i += 1;
    }
    proof {
        assert(s@.subrange(0, n as int) =~= s@);
    }
    out
}

/// The decimal digit character of one digit value, executable form.
fn dec_digit_char(d: u64) -> (c: char)
    requires
        d < 10,
    ensures
        c == dec_digit(d as int),
{
    if d == 0 {
        '0'
    } else if d == 1 {
        '1'
    } else if d == 2 {
        '2'
    } else if d == 3 {
        '3'
    } else if d == 4 {
        '4'
    } else if d == 5 {
        '5'
    } else if d == 6 {
        '6'
    } else if d == 7 {
        '7'
    } else if d == 8 {
        '8'
    } else {
        '9'
    }
}

/// Prints a number in decimal.
pub fn u64_to_dec(n: u64) -> (out: String)
    ensures
        out@ == dec_str(n as nat),
    decreases n,
{
    if n < 10 {
        let mut out = String::new();
        push_char(&mut out, dec_digit_char(n));
        proof {
            assert(out@ =~= dec_str(n as nat));
        }
        out
    } else {
        let mut out = u64_to_dec(n / 10);
        push_char(&mut out, dec_digit_char(n % 10));
        proof {
            assert(out@ =~= dec_str(n as nat));
        }
        out
    }
}

/// Concatenation preserves the absence of line delimiters.
pub proof fn lemma_newline_free_concat(a: Seq<char>, b: Seq<char>)
    requires
        newline_free(a),
        newline_free(b),
    ensures
        newline_free(a + b),
{
    assert forall|i: int| 0 <= i < (a + b).len() implies (a + b)[i] != '\n' by {
        if i < a.len() {
            assert((a + b)[i] == a[i]);
        } else {
            assert((a + b)[i] == b[i - a.len()]);
        }
    }
}

/// One outstanding call: a fixed protocol version tag `2.0`, a method name, a
/// parameter object given as already-encoded JSON text, and an identifier.
pub struct Request {
    pub method: String,
    pub params: String,
    pub id: u64,
}

/// A one-way message: like a request, but carrying no identifier and
/// expecting no response.
pub struct Notification {
    pub method: String,
    pub params: String,
}

/// The opening frame of every encoded message, up to the method name.
pub open spec fn frame_head() -> Seq<char> {
    "{\"jsonrpc\":\"2.0\",\"method\":\""@
}

/// The frame between the method name and the parameter text.
pub open spec fn frame_mid() -> Seq<char> {
    "\",\"params\":"@
}

/// The frame between the parameter text and the identifier of a request.
pub open spec fn frame_id() -> Seq<char> {
    ",\"id\":"@
}

/// The exact character sequence of an encoded request line.
pub open spec fn request_text(method: Seq<char>, params: Seq<char>, id: nat) -> Seq<char> {
    frame_head() + escape_seq(method) + frame_mid() + params + frame_id() + dec_str(id) + "}"@
}

/// The exact character sequence of an encoded notification line.
pub open spec fn notification_text(method: Seq<char>, params: Seq<char>) -> Seq<char> {
    frame_head() + escape_seq(method) + frame_mid() + params + "}"@
}

proof fn lemma_frame_literals_newline_free()
    ensures
        newline_free("{\"jsonrpc\":\"2.0\",\"method\":\""@),
        newline_free("\",\"params\":"@),
        newline_free(",\"id\":"@),
        newline_free("}"@),
{
    reveal_strlit("{\"jsonrpc\":\"2.0\",\"method\":\"");
    reveal_strlit("\",\"params\":");
    reveal_strlit(",\"id\":");
    reveal_strlit("}");
}

/// An encoded request stays on one line: as long as the parameter text holds
/// no line delimiter, the whole encoded line holds none either.
pub proof fn lemma_request_text_newline_free(method: Seq<char>, params: Seq<char>, id: nat)
    requires
        newline_free(params),
    ensures
        newline_free(request_text(method, params, id)),
{
    lemma_frame_literals_newline_free();
    lemma_escape_seq_newline_free(method);
    lemma_dec_str_newline_free(id);
    lemma_newline_free_concat("{\"jsonrpc\":\"2.0\",\"method\":\""@, escape_seq(method));
    lemma_newline_free_concat(
        "{\"jsonrpc\":\"2.0\",\"method\":\""@ + escape_seq(method),
        "\",\"params\":"@,
    );
    lemma_newline_free_concat(
        "{\"jsonrpc\":\"2.0\",\"method\":\""@ + escape_seq(method) + "\",\"params\":"@,
        params,
    );
    lemma_newline_free_concat(
        "{\"jsonrpc\":\"2.0\",\"method\":\""@ + escape_seq(method) + "\",\"params\":"@ + params,
        ",\"id\":"@,
    );
    lemma_newline_free_concat(
        "{\"jsonrpc\":\"2.0\",\"method\":\""@ + escape_seq(method) + "\",\"params\":"@ + params
            + ",\"id\":"@,
        dec_str(id),
    );
    lemma_newline_free_concat(
        "{\"jsonrpc\":\"2.0\",\"method\":\""@ + escape_seq(method) + "\",\"params\":"@ + params
            + ",\"id\":"@ + dec_str(id),
        "}"@,
    );
}

/// An encoded notification stays on one line under the same condition.
pub proof fn lemma_notification_text_newline_free(method: Seq<char>, params: Seq<char>)
    requires
        newline_free(params),
    ensures
        newline_free(notification_text(method, params)),
{
    lemma_frame_literals_newline_free();
    lemma_escape_seq_newline_free(method);
    lemma_newline_free_concat("{\"jsonrpc\":\"2.0\",\"method\":\""@, escape_seq(method));
    lemma_newline_free_concat(
        "{\"jsonrpc\":\"2.0\",\"method\":\""@ + escape_seq(method),
        "\",\"params\":"@,
    );
    lemma_newline_free_concat(
        "{\"jsonrpc\":\"2.0\",\"method\":\""@ + escape_seq(method) + "\",\"params\":"@,
        params,
    );
    lemma_newline_free_concat(
        "{\"jsonrpc\":\"2.0\",\"method\":\""@ + escape_seq(method) + "\",\"params\":"@ + params,
        "}"@,
    );
}

/// Encodes one request to its wire line, exactly `request_text`.
pub fn encode_request(req: &Request) -> (line: String)
    ensures
        line@ == request_text(req.method@, req.params@, req.id as nat),
{
    let mut line = String::from_str("{\"jsonrpc\":\"2.0\",\"method\":\"");
    let esc = escape_string(req.method.as_str());
    line.append(esc.as_str());
    line.append("\",\"params\":");
    line.append(req.params.as_str());
    line.append(",\"id\":");
    let digits = u64_to_dec(req.id);
    line.append(digits.as_str());
    line.append("}");
    proof {
        assert(line@ =~= request_text(req.method@, req.params@, req.id as nat));
    }
    line
}

/// Encodes one notification to its wire line, exactly `notification_text`.
pub fn encode_notification(n: &Notification) -> (line: String)
    ensures
        line@ == notification_text(n.method@, n.params@),
{
    let mut line = String::from_str("{\"jsonrpc\":\"2.0\",\"method\":\"");
    let esc = escape_string(n.method.as_str());
    line.append(esc.as_str());
    line.append("\",\"params\":");
    line.append(n.params.as_str());
    line.append("}");
    proof {
        assert(line@ =~= notification_text(n.method@, n.params@));
    }
    line
}

/// The position of the first unescaped quote at or after `i`: a backslash
/// consumes the character after it.
pub open spec fn scan_string(s: Seq<char>, i: int) -> Option<int>
    decreases s.len() - i,
{
    if i < 0 || i >= s.len() {
        None
    } else if s[i] == '"' {
        Some(i)
    } else if s[i] == '\\' {
        if i + 1 < s.len() {
            scan_string(s, i + 2)
        } else {
            None
        }
    } else {
        scan_string(s, i + 1)
    }
}

/// Scanning across escaped string content finds exactly the terminating
/// quote: escaping produces no unescaped quote of its own.
proof fn lemma_scan_over_escaped(line: Seq<char>, i: int, m: Seq<char>)
    requires
        0 <= i,
        i + escape_seq(m).len() < line.len(),
        line.subrange(i, i + escape_seq(m).len()) == escape_seq(m),
        line[i + escape_seq(m).len()] == '"',
    ensures
        scan_string(line, i) == Some(i + escape_seq(m).len()),
    decreases m.len(),
{
    let e = escape_seq(m);
    assert forall|k: int| 0 <= k < e.len() implies line[i + k] == e[k] by {
        assert(line.subrange(i, i + e.len())[k] == e[k]);
    }
    if m.len() == 0 {
        assert(line[i] == '"');
    } else {
        let head = escaped_char(m[0]);
        let rest = escape_seq(m.skip(1));
        assert(e == head + rest);
        assert forall|k: int| 0 <= k < rest.len() implies line.subrange(
            i + head.len(),
            i + head.len() + rest.len(),
        )[k] == rest[k] by {
            assert(line[i + head.len() + k] == e[head.len() + k]);
            assert(e[head.len() + k] == rest[k]);
        }
        assert(line.subrange(i + head.len(), i + head.len() + rest.len()) =~= rest);
        assert(line[i + head.len() + rest.len()] == '"');
        lemma_scan_over_escaped(line, i + head.len(), m.skip(1));
        assert(line[i + 0] == e[0]);
        assert(e[0] == head[0]);
        if head.len() == 2 {
            assert(line[i + 1] == e[1]);
            assert(e[1] == head[1]);
            assert(head[0] == '\\');
            assert(scan_string(line, i) == scan_string(line, i + 2));
        } else {
            assert(head =~= seq![m[0]]);
            assert(line[i] == m[0]);
            assert(m[0] != '"' && m[0] != '\\');
            assert(scan_string(line, i) == scan_string(line, i + 1));
        }
    }
}

/// The start of the maximal run of decimal digits ending just before `i`.
pub open spec fn digit_run_start(s: Seq<char>, i: int) -> int
    decreases i,
{
    if i <= 0 || i > s.len() {
        i
    } else if is_dec_digit(s[i - 1]) {
        digit_run_start(s, i - 1)
    } else {
        i
    }
}

/// A run of digits bounded by a non-digit on its left is found exactly.
proof fn lemma_digit_run_start(s: Seq<char>, j: int, k: int)
    requires
        0 < j <= k <= s.len(),
        forall|t: int| j <= t < k ==> is_dec_digit(#[trigger] s[t]),
        !is_dec_digit(s[j - 1]),
    ensures
        digit_run_start(s, k) == j,
    decreases k - j,
{
    if k > j {
        lemma_digit_run_start(s, j, k - 1);
    }
}

/// Cutting a concatenation of three parts at its seams gives back the middle
/// part.
proof fn lemma_middle_part(x: Seq<char>, y: Seq<char>, z: Seq<char>)
    ensures
        (x + y + z).subrange(x.len() as int, x.len() + y.len() as int) == y,
{
    assert((x + y + z).subrange(x.len() as int, x.len() + y.len() as int) =~= y);
}

/// Reads one encoded request line back: the unescaped method name, the raw
/// parameter text, and the identifier. `None` for any line that is not
/// exactly an encoded request of this codec.
pub open spec fn parse_request_text(line: Seq<char>) -> Option<(Seq<char>, Seq<char>, nat)> {
    let h = frame_head().len() as int;
    if line.len() <= h || line.subrange(0, h) != frame_head() || line.last() != '}' {
        None
    } else {
        match scan_string(line, h) {
            None => None,
            Some(q) => {
                let d0 = digit_run_start(line, line.len() - 1);
                let m0 = q + frame_mid().len();
                let p1 = d0 - frame_id().len();
                if m0 <= p1 && d0 < line.len() - 1 && line.subrange(q, m0) == frame_mid()
                    && line.subrange(p1, d0) == frame_id() {
                    match unescape_seq(line.subrange(h, q)) {
                        None => None,
                        Some(method) => Some(
                            (
                                method,
                                line.subrange(m0, p1),
                                dec_value(line.subrange(d0, line.len() - 1)),
                            ),
                        ),
                    }
                } else {
                    None
                }
            },
        }
    }
}

/// The round-trip law of the request codec: reading an encoded request line
/// back gives exactly the method name, the parameter text and the identifier
/// that were encoded, for every method, every parameter text and every
/// identifier.
pub proof fn lemma_parse_request_round_trip(method: Seq<char>, params: Seq<char>, id: nat)
    ensures
        parse_request_text(request_text(method, params, id)) == Some((method, params, id)),
{
    reveal_strlit("\",\"params\":");
    reveal_strlit(",\"id\":");
    reveal_strlit("}");
    let line = request_text(method, params, id);
    let e = escape_seq(method);
    let d = dec_str(id);
    let hs = frame_head();
    let ms = frame_mid();
    let fs = frame_id();
    let ts = "}"@;
    let h = hs.len() as int;
    let q = h + e.len();
    let m0 = q + ms.len();
    let p1 = m0 + params.len();
    let d0 = p1 + fs.len();
    let n = line.len() as int;
    assert(line == hs + e + ms + params + fs + d + ts);
    assert(n == d0 + d.len() + 1);

    // the frame segments sit at their positions
    assert(line =~= hs + (e + ms + params + fs + d + ts));
    lemma_middle_part(Seq::empty(), hs, e + ms + params + fs + d + ts);
    assert((Seq::empty() + hs + (e + ms + params + fs + d + ts)) =~= line);
    assert(line.subrange(0, h) == hs);

    assert(line =~= hs + e + (ms + params + fs + d + ts));
    lemma_middle_part(hs, e, ms + params + fs + d + ts);
    assert(line.subrange(h, q) == e);

    assert(line =~= (hs + e) + ms + (params + fs + d + ts));
    lemma_middle_part(hs + e, ms, params + fs + d + ts);
    assert(line.subrange(q, m0) == ms);

    assert(line =~= (hs + e + ms) + params + (fs + d + ts));
    lemma_middle_part(hs + e + ms, params, fs + d + ts);
    assert(line.subrange(m0, p1) == params);

    assert(line =~= (hs + e + ms + params) + fs + (d + ts));
    lemma_middle_part(hs + e + ms + params, fs, d + ts);
    assert(line.subrange(p1, d0) == fs);

    assert(line =~= (hs + e + ms + params + fs) + d + ts);
    lemma_middle_part(hs + e + ms + params + fs, d, ts);
    assert(line.subrange(d0, d0 + d.len()) == d);

    // single characters the parse turns on
    assert(line[n - 1] == ts[0]);
    assert(line.last() == '}');
    assert(line[q] == ms[0]);
    assert(line[q] == '"');
    assert(line[d0 - 1] == fs[fs.len() - 1]);
    assert(line[d0 - 1] == ':');

    // the method scan stops exactly at the closing quote
    lemma_scan_over_escaped(line, h, method);
    assert(scan_string(line, h) == Some(q));

    // the digit run is exactly the printed identifier
    lemma_dec_str_digits(id);
    assert forall|t: int| d0 <= t < n - 1 implies is_dec_digit(#[trigger] line[t]) by {
        assert(line.subrange(d0, d0 + d.len())[t - d0] == d[t - d0]);
    }
    lemma_digit_run_start(line, d0, n - 1);
    assert(digit_run_start(line, n - 1) == d0);

    // the three readings give back what was encoded
    lemma_unescape_escape(method);
    assert(unescape_seq(line.subrange(h, q)) == Some(method));
    lemma_dec_value_of_dec_str(id);
    assert(line.subrange(d0, n - 1) == line.subrange(d0, d0 + d.len()));
    assert(dec_value(line.subrange(d0, n - 1)) == id);
}

/// Reads one encoded notification line back: the unescaped method name and
/// the raw parameter text. `None` for any line that is not exactly an encoded
/// notification of this codec.
pub open spec fn parse_notification_text(line: Seq<char>) -> Option<(Seq<char>, Seq<char>)> {
    let h = frame_head().len() as int;
    if line.len() <= h || line.subrange(0, h) != frame_head() || line.last() != '}' {
        None
    } else {
        match scan_string(line, h) {
            None => None,
            Some(q) => {
                let m0 = q + frame_mid().len();
                if m0 <= line.len() - 1 && line.subrange(q, m0) == frame_mid() {
                    match unescape_seq(line.subrange(h, q)) {
                        None => None,
                        Some(method) => Some((method, line.subrange(m0, line.len() - 1))),
                    }
                } else {
                    None
                }
            },
        }
    }
}

/// The round-trip law of the notification codec: reading an encoded
/// notification line back gives exactly the method name and the parameter
/// text that were encoded.
pub proof fn lemma_parse_notification_round_trip(method: Seq<char>, params: Seq<char>)
    ensures
        parse_notification_text(notification_text(method, params)) == Some((method, params)),
{
    reveal_strlit("\",\"params\":");
    reveal_strlit("}");
    let line = notification_text(method, params);
    let e = escape_seq(method);
    let hs = frame_head();
    let ms = frame_mid();
    let ts = "}"@;
    let h = hs.len() as int;
    let q = h + e.len();
    let m0 = q + ms.len();
    let n = line.len() as int;
    assert(line == hs + e + ms + params + ts);
    assert(n == m0 + params.len() + 1);

    assert(line =~= hs + (e + ms + params + ts));
    lemma_middle_part(Seq::empty(), hs, e + ms + params + ts);
    assert((Seq::empty() + hs + (e + ms + params + ts)) =~= line);
    assert(line.subrange(0, h) == hs);

    assert(line =~= hs + e + (ms + params + ts));
    lemma_middle_part(hs, e, ms + params + ts);
    assert(line.subrange(h, q) == e);

    assert(line =~= (hs + e) + ms + (params + ts));
    lemma_middle_part(hs + e, ms, params + ts);
    assert(line.subrange(q, m0) == ms);

    assert(line =~= (hs + e + ms) + params + ts);
    lemma_middle_part(hs + e + ms, params, ts);
    assert(line.subrange(m0, m0 + params.len() as int) == params);

    assert(line[n - 1] == ts[0]);
    assert(line.last() == '}');
    assert(line[q] == ms[0]);
    assert(line[q] == '"');

    lemma_scan_over_escaped(line, h, method);
    assert(scan_string(line, h) == Some(q));

    lemma_unescape_escape(method);
    assert(unescape_seq(line.subrange(h, q)) == Some(method));
    assert(line.subrange(m0, n - 1) == line.subrange(m0, m0 + params.len() as int));
}

/// The abstract shape of one response line, as the classification sees it.
pub enum WireReply {
    /// The line is not a well-formed response object.
    Invalid,
    /// A response object whose `result` field is present; carries the result
    /// value as JSON text.
    Success(Seq<char>),
    /// A response object with no `result` but a populated `error` object;
    /// carries the peer's error code and message.
    Failure(int, Seq<char>),
    /// A response object with neither `result` nor `error`: a protocol
    /// violation distinct from every other kind.
    Neither,
}

/// One classified response line, executable form.
pub enum DecodedResponse {
    Invalid,
    Success(String),
    Failure(i64, String),
    Neither,
}

impl View for DecodedResponse {
    type V = WireReply;

    open spec fn view(&self) -> WireReply {
        match self {
            DecodedResponse::Invalid => WireReply::Invalid,
            DecodedResponse::Success(text) => WireReply::Success(text@),
            DecodedResponse::Failure(code, message) => WireReply::Failure(
                *code as int,
                message@,
            ),
            DecodedResponse::Neither => WireReply::Neither,
        }
    }
}

/// The classification of a line of text as a response. Its value is fixed by
/// the JSON grammar and the response shape alone; it is given a name here and
/// stated only at the one place that computes it.
pub uninterp spec fn response_of(line: Seq<char>) -> WireReply;

/// Relies on `serde_json::from_str` and the accessors of `serde_json::Value`:
/// parses one line as a JSON response object of the shape
/// `{"result": <any>?, "error": {"code": <int>, "message": <string>}?}`,
/// reporting the `result` value (re-encoded as JSON text) if the field is
/// present, otherwise the error object's code and message if that field is
/// present and well-shaped, otherwise that neither field is present; any line
/// that is not such an object is reported as invalid.
#[verifier::external_body]
fn decode_response_line(line: &str) -> (r: DecodedResponse)
    ensures
        r@ == response_of(line@),
{
    let v = match serde_json::from_str::<serde_json::Value>(line) {
        Ok(v) => v,
        Err(_) => return DecodedResponse::Invalid,
    };
    match (v.is_object(), v.get("result"), v.get("error")) {
        (false, _, _) => DecodedResponse::Invalid,
        (true, Some(result), _) => DecodedResponse::Success(result.to_string()),
        (true, None, None) => DecodedResponse::Neither,
        (true, None, Some(e)) => match (e.get("code").and_then(|c| c.as_i64()), e.get("message").and_then(|m| m.as_str())) {
            (Some(code), Some(message)) => DecodedResponse::Failure(code, message.to_string()),
            _ => DecodedResponse::Invalid,
        },
    }
}

/// Resolves one classified response to the outcome of a call: a present
/// result is returned as is; a populated error fails the call with the peer's
/// message; a response with neither is the distinct malformed-response
/// failure; an unparseable line is the distinct decode failure.
pub fn resolve_response(d: DecodedResponse) -> (r: Result<String, McpError>)
    ensures
        d@ is Success ==> r is Ok && r->Ok_0@ == d@->Success_0,
        d@ is Failure ==> r is Err && r->Err_0 is Protocol && r->Err_0->Protocol_0@ == d@->Failure_1,
        d@ is Neither ==> r == Err::<String, McpError>(McpError::MalformedResponse),
        d@ is Invalid ==> r == Err::<String, McpError>(McpError::DecodeFailure),
{
    match d {
        DecodedResponse::Success(text) => Ok(text),
        DecodedResponse::Failure(_code, message) => Err(McpError::Protocol(message)),
        DecodedResponse::Neither => Err(McpError::MalformedResponse),
        DecodedResponse::Invalid => Err(McpError::DecodeFailure),
    }
}

/// Classifies and resolves one raw response line in one step.
pub fn decode_and_resolve(line: &str) -> (r: Result<String, McpError>)
    ensures
        response_of(line@) is Success ==> r is Ok && r->Ok_0@ == response_of(line@)->Success_0,
        response_of(line@) is Failure ==> r is Err && r->Err_0 is Protocol && r->Err_0->Protocol_0@
            == response_of(line@)->Failure_1,
        response_of(line@) is Neither ==> r == Err::<String, McpError>(McpError::MalformedResponse),
        response_of(line@) is Invalid ==> r == Err::<String, McpError>(McpError::DecodeFailure),
{
    let d = decode_response_line(line);
    resolve_response(d)
}

} // verus!
