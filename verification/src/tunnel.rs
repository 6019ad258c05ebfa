//! The tunnel-provisioning endpoint (inlet manager).
//!
//! A trusted peer sends the text `"<offset> <destination-node-name>"`;
//! the endpoint computes `BASE_PORT + offset`, rewrites the message's
//! return route so traffic on the new tunnel reaches the requester's
//! destination, and answers with the chosen port in decimal. A message
//! whose offset does not parse as a 16-bit number, or whose destination
//! is empty, is answered with `Invalid` and opens nothing. The endpoint
//! stands behind the membership gate; `guarded_handle_tunnel_request`
//! checks the required attribute before the handler can see the message.

use vstd::prelude::*;
use vstd::string::StrSliceExecFns;
use vstd::string::StringExecFns;

use crate::errors::NodeError;
use crate::gate::AttributeGate;
use crate::credential::Credential;

verus! {

/// Tunnel ports are allocated upward from here.
pub const BASE_PORT: u32 = 9000;

/// Largest accepted port offset: it must fit sixteen bits.
pub const MAX_OFFSET: u32 = 65535;

/// A decimal digit.
pub open spec fn is_digit(c: char) -> bool {
    '0' <= c && c <= '9'
}

/// The value of one decimal digit.
pub open spec fn digit_val(c: char) -> nat {
    (c as int - '0' as int) as nat
}

/// Every character is a decimal digit.
pub open spec fn all_digits(s: Seq<char>) -> bool {
    forall|i: int| 0 <= i < s.len() ==> is_digit(#[trigger] s[i])
}

/// The number the digit string denotes.
pub open spec fn dec_val(s: Seq<char>) -> nat
    decreases s.len(),
{
    if s.len() == 0 {
        0
    } else {
        dec_val(s.drop_last()) * 10 + digit_val(s.last())
    }
}

/// Index of the first space, or the length if there is none.
pub open spec fn first_space(s: Seq<char>) -> int
    decreases s.len(),
{
    if s.len() == 0 {
        0
    } else if s[0] == ' ' {
        0
    } else {
        1 + first_space(s.drop_first())
    }
}

/// Index just after the last space: where the last token starts.
pub open spec fn last_token_start(s: Seq<char>) -> int
    decreases s.len(),
{
    if s.len() == 0 {
        0
    } else if s.last() == ' ' {
        s.len() as int
    } else {
        last_token_start(s.drop_last())
    }
}

/// The first space-separated token: the requested port offset.
pub open spec fn offset_token(s: Seq<char>) -> Seq<char> {
    s.take(first_space(s))
}

/// The last space-separated token: the destination node name.
pub open spec fn dest_token(s: Seq<char>) -> Seq<char> {
    s.skip(last_token_start(s))
}

/// A well-formed tunnel request: a nonempty decimal offset no larger
/// than `MAX_OFFSET`, and a nonempty destination name.
pub open spec fn spec_tunnel_ok(s: Seq<char>) -> bool {
    &&& offset_token(s).len() >= 1
    &&& all_digits(offset_token(s))
    &&& dec_val(offset_token(s)) <= MAX_OFFSET
    &&& dest_token(s).len() >= 1
}

/// A parsed tunnel request.
#[derive(Clone, Debug, PartialEq, Eq)]
pub struct TunnelRequest {
    pub offset: u16,
    pub dest: String,
}

/// What the endpoint asks of the substrate for one granted request:
/// listen on `port`, forward accepted connections along `inlet_route`,
/// and answer the requester with `reply`.
#[derive(Debug, PartialEq, Eq)]
pub struct TunnelAction {
    pub port: u32,
    pub inlet_route: Vec<String>,
    pub reply: String,
}

/// Positions before a space-free prefix pin down `first_space`.
proof fn lemma_first_space_at(s: Seq<char>, j: int)
    requires
        0 <= j <= s.len(),
        forall|k: int| 0 <= k < j ==> s[k] != ' ',
        j < s.len() ==> s[j] == ' ',
    ensures
        first_space(s) == j,
    decreases j,
{
    if s.len() == 0 {
    } else if s[0] == ' ' {
    } else {
        lemma_first_space_at(s.drop_first(), j - 1);
    }
}

/// A space-free suffix that starts at a space pins down
/// `last_token_start`.
proof fn lemma_last_token_start_at(s: Seq<char>, j: int)
    requires
        0 <= j <= s.len(),
        forall|k: int| j <= k < s.len() ==> s[k] != ' ',
        j > 0 ==> s[j - 1] == ' ',
    ensures
        last_token_start(s) == j,
    decreases s.len(),
{
    if s.len() == 0 {
    } else if s.last() == ' ' {
    } else {
        lemma_last_token_start_at(s.drop_last(), j);
    }
}

/// A digit string is worth at least any of its prefixes.
proof fn lemma_dec_val_prefix(s: Seq<char>, i: int)
    requires
        0 <= i <= s.len(),
    ensures
        dec_val(s.take(i)) <= dec_val(s),
    decreases s.len() - i,
{
    if i == s.len() {
        assert(s.take(i) =~= s);
    } else {
        assert(s.take(i + 1).drop_last() =~= s.take(i));
        assert(dec_val(s.take(i + 1)) == dec_val(s.take(i)) * 10 + digit_val(s.take(i + 1).last()));
        lemma_dec_val_prefix(s, i + 1);
    }
}

/// Index of the first space of `msg`, or its length if it has none.
fn find_first_space(msg: &str, n: usize) -> (j: usize)
    requires
        n as nat == msg@.len(),
    ensures
        j as int == first_space(msg@),
        j <= n,
    {
    let mut j: usize = 0;
    while j < n && msg.get_char(j) != ' '
        invariant
            0 <= j <= n,
            n as nat == msg@.len(),
            forall|k: int| 0 <= k < j ==> msg@[k] != ' ',
        decreases n - j,
    {
        j = j + 1;
    }
    proof {
        lemma_first_space_at(msg@, j as int);
    }
    j
}

/// Index where the last token of `msg` starts: just after its last
/// space, or zero if it has none.
fn find_last_token_start(msg: &str, n: usize) -> (j: usize)
    requires
        n as nat == msg@.len(),
    ensures
        j as int == last_token_start(msg@),
        j <= n,
    {
    let mut j: usize = n;
    while j > 0 && msg.get_char(j - 1) != ' '
        invariant
            0 <= j <= n,
            n as nat == msg@.len(),
            forall|k: int| j <= k < n ==> msg@[k] != ' ',
        decreases j,
    {
        j = j - 1;
    }
    proof {
        lemma_last_token_start_at(msg@, j as int);
    }
    j
}

/// Parses `"<offset> ... <destination-node-name>"`: the first token as a
/// decimal 16-bit offset, the last token as the destination. `Invalid`
/// exactly when the message is not well formed.
pub fn parse_tunnel_request(msg: &str) -> (r: Result<TunnelRequest, NodeError>)
    ensures
        r is Ok <==> spec_tunnel_ok(msg@),
        r matches Ok(t) ==> t.offset as nat == dec_val(offset_token(msg@))
            && t.dest@ == dest_token(msg@),
        r matches Err(e) ==> e == NodeError::Invalid,
{
    let n = msg.unicode_len();
    let j1 = find_first_space(msg, n);
    if j1 == 0 {
        assert(offset_token(msg@).len() == 0);
        return Err(NodeError::Invalid);
    }
    let ghost token = offset_token(msg@);
    assert(token.len() == j1);
    let mut acc: u32 = 0;
    let mut k: usize = 0;
    while k < j1
        invariant
            0 <= k <= j1,
            j1 <= n,
            n as nat == msg@.len(),
            token == offset_token(msg@),
            token.len() == j1,
            j1 as int == first_space(msg@),
            forall|i: int| 0 <= i < k ==> is_digit(#[trigger] token[i]),
            acc as nat == dec_val(token.take(k as int)),
            acc <= MAX_OFFSET,
        decreases j1 - k,
    {
        let c = msg.get_char(k);
        assert(token[k as int] == msg@[k as int]);
        if !(('0' <= c) && (c <= '9')) {
            assert(!all_digits(token));
            return Err(NodeError::Invalid);
        }
        let d: u32 = (c as u32) - ('0' as u32);
        assert(d as nat == digit_val(c));
        let next: u32 = acc * 10 + d;
        proof {
            assert(token.take(k as int + 1).drop_last() =~= token.take(k as int));
            assert(token.take(k as int + 1).last() == token[k as int]);
        }
        if next > MAX_OFFSET {
            proof {
                lemma_dec_val_prefix(token, k as int + 1);
            }
            assert(dec_val(token) > MAX_OFFSET);
            return Err(NodeError::Invalid);
        }
        acc = next;
        k = k + 1;
    }
    assert(token.take(j1 as int) =~= token);
    assert(all_digits(token));
    let j2 = find_last_token_start(msg, n);
    if j2 == n {
        assert(dest_token(msg@).len() == 0);
        return Err(NodeError::Invalid);
    }
    let dest_part = msg.substring_char(j2, n);
    assert(dest_part@ =~= dest_token(msg@));
    let dest = dest_part.to_owned();
    Ok(TunnelRequest { offset: acc as u16, dest })
}

/// The decimal digit character for `d`.
pub open spec fn digit_char(d: nat) -> char {
    if d == 0 { '0' }
    else if d == 1 { '1' }
    else if d == 2 { '2' }
    else if d == 3 { '3' }
    else if d == 4 { '4' }
    else if d == 5 { '5' }
    else if d == 6 { '6' }
    else if d == 7 { '7' }
    else if d == 8 { '8' }
    else { '9' }
}

/// The decimal text for `n`: no leading zeroes, `"0"` for zero.
pub open spec fn dec_chars(n: nat) -> Seq<char>
    decreases n,
{
    if n < 10 {
        seq![digit_char(n)]
    } else {
        dec_chars(n / 10).push(digit_char(n % 10))
    }
}

/// Appends the digit character for `d`.
fn push_digit(out: &mut String, d: u32)
    requires
        d < 10,
    ensures
        final(out)@ == old(out)@ + seq![digit_char(d as nat)],
{
    proof {
        reveal_strlit("0");
        reveal_strlit("1");
        reveal_strlit("2");
        reveal_strlit("3");
        reveal_strlit("4");
        reveal_strlit("5");
        reveal_strlit("6");
        reveal_strlit("7");
        reveal_strlit("8");
        reveal_strlit("9");
    }
    if d == 0 { out.append("0"); }
    else if d == 1 { out.append("1"); }
    else if d == 2 { out.append("2"); }
    else if d == 3 { out.append("3"); }
    else if d == 4 { out.append("4"); }
    else if d == 5 { out.append("5"); }
    else if d == 6 { out.append("6"); }
    else if d == 7 { out.append("7"); }
    else if d == 8 { out.append("8"); }
    else { out.append("9"); }
    assert(out@ =~= old(out)@ + seq![digit_char(d as nat)]);
}

/// Appends the decimal text for `n`.
fn push_decimal(out: &mut String, n: u32)
    ensures
        final(out)@ == old(out)@ + dec_chars(n as nat),
    decreases n,
{
    if n < 10 {
        push_digit(out, n);
    } else {
        push_decimal(out, n / 10);
        push_digit(out, n % 10);
        assert(out@ =~= old(out)@ + dec_chars(n as nat));
    }
}

/// The decimal text for `n`, as a fresh string.
pub fn render_decimal(n: u32) -> (s: String)
    ensures
        s@ == dec_chars(n as nat),
{
    let mut out = String::new();
    push_decimal(&mut out, n);
    assert(out@ =~= dec_chars(n as nat));
    out
}

/// What a granted tunnel request must produce: the port is `BASE_PORT`
/// plus the requested offset; the inlet route is the return route with
/// its final hop replaced by the requested destination; the reply is the
/// port in decimal.
pub open spec fn spec_tunnel_action(
    msg: Seq<char>,
    return_route: Seq<String>,
    a: TunnelAction,
) -> bool {
    &&& a.port == BASE_PORT + dec_val(offset_token(msg))
    &&& a.inlet_route.len() == return_route.len()
    &&& forall|i: int| 0 <= i < return_route.len() - 1
        ==> #[trigger] a.inlet_route[i]@ == return_route[i]@
    &&& a.inlet_route[return_route.len() - 1]@ == dest_token(msg)
    &&& a.reply@ == dec_chars(a.port as nat)
}

/// Handles one tunnel-provisioning message: parses it, rewrites the
/// return route (final hop dropped, destination appended) and chooses
/// the port. A malformed message is answered with `Invalid` and nothing
/// is opened.
pub fn handle_tunnel_request(msg: &str, return_route: &Vec<String>) -> (r: Result<
    TunnelAction,
    NodeError,
>)
    requires
        return_route@.len() >= 1,
    ensures
        r is Ok <==> spec_tunnel_ok(msg@),
        r matches Ok(a) ==> spec_tunnel_action(msg@, return_route@, a),
        r matches Err(e) ==> e == NodeError::Invalid,
{
    let t = match parse_tunnel_request(msg) {
        Ok(t) => t,
        Err(e) => { return Err(e); },
    };
    let port: u32 = BASE_PORT + (t.offset as u32);
    let mut inlet_route: Vec<String> = Vec::new();
    let last = return_route.len() - 1;
    let mut i: usize = 0;
    while i < last
        invariant
            0 <= i <= last,
            last == return_route@.len() - 1,
            inlet_route@.len() == i,
            forall|j: int| 0 <= j < i ==> #[trigger] inlet_route@[j]@ == return_route@[j]@,
        decreases last - i,
    {
        inlet_route.push(return_route[i].clone());
        i = i + 1;
    }
    inlet_route.push(t.dest);
    let reply = render_decimal(port);
    Ok(TunnelAction { port, inlet_route, reply })
}

/// The guarded endpoint: the required attribute is checked against the credential
/// presented on the message's channel, and a message on a channel
/// without the required attribute never reaches the handler — the result
/// is `None` and nothing is parsed or opened.
pub fn guarded_handle_tunnel_request(
    gate: &AttributeGate,
    channel_credential: &Option<Credential>,
    msg: &str,
    return_route: &Vec<String>,
) -> (r: Option<Result<TunnelAction, NodeError>>)
    requires
        return_route@.len() >= 1,
    ensures
        r is Some <==> gate.spec_permits(*channel_credential),
        r matches Some(h) ==> {
            &&& h is Ok <==> spec_tunnel_ok(msg@)
            &&& h matches Ok(a) ==> spec_tunnel_action(msg@, return_route@, a)
            &&& h matches Err(e) ==> e == NodeError::Invalid
        },
{
    if !gate.permits(channel_credential) {
        return None;
    }
    Some(handle_tunnel_request(msg, return_route))
}

} // verus!
