//! The command line: the node's id, its address, and its peers, each given
//! as `id@address`.
use itertools::Itertools;
use vstd::prelude::*;

verus! {

/// A peer as given on the command line.
#[derive(Clone, Debug)]
pub struct ArgsPeer {
    pub id: i32,
    pub server: String,
}

/// simple raft implementation for learning
#[derive(Debug)]
pub struct Args {
    /// node id
    pub id: i32,
    /// server address
    pub server: String,
    /// peers address
    pub peers: Vec<ArgsPeer>,
}

/// The pieces of `s` between occurrences of `sep`, as `str::split` yields
/// them: one more piece than there are separators, empty pieces included.
pub open spec fn split_on(s: Seq<char>, sep: char) -> Seq<Seq<char>>
    decreases s.len(),
{
    if s.len() == 0 {
        seq![Seq::<char>::empty()]
    } else {
        let before = split_on(s.drop_last(), sep);
        if s.last() == sep {
            before.push(Seq::<char>::empty())
        } else {
            before.update(before.len() - 1, before.last().push(s.last()))
        }
    }
}

/// Whether `c` is an ASCII decimal digit.
pub open spec fn is_digit(c: char) -> bool {
    '0' <= c <= '9'
}

/// The number that the decimal digits `d` write.
pub open spec fn digits_value(d: Seq<char>) -> int
    decreases d.len(),
{
    if d.len() == 0 {
        0
    } else {
        digits_value(d.drop_last()) * 10 + (d.last() as int - '0' as int)
    }
}

/// `s` without a leading `+` or `-`.
pub open spec fn unsigned_part(s: Seq<char>) -> Seq<char> {
    if s.len() > 0 && (s[0] == '-' || s[0] == '+') {
        s.drop_first()
    } else {
        s
    }
}

/// Whether every character of `d` is an ASCII decimal digit.
pub open spec fn all_digits(d: Seq<char>) -> bool {
    forall|i: int| 0 <= i < d.len() ==> is_digit(#[trigger] d[i])
}

/// What `str::parse::<i32>` accepts: an optional `+` or `-`, then one or
/// more ASCII digits, naming a value within `i32`.
pub open spec fn parse_i32_spec(s: Seq<char>) -> Option<i32> {
    let digits = unsigned_part(s);
    let value = if s.len() > 0 && s[0] == '-' {
        -digits_value(digits)
    } else {
        digits_value(digits)
    };
    if digits.len() > 0 && all_digits(digits) && i32::MIN <= value <= i32::MAX {
        Some(value as i32)
    } else {
        None
    }
}

/// What `validate_peers` makes of `peer`: the id and address of an
/// `id@address` pair, or the message that explains the refusal.
pub open spec fn peer_spec(peer: Seq<char>) -> Result<(i32, Seq<char>), Seq<char>> {
    let parts = split_on(peer, '@');
    if peer.len() == 0 {
        Err("peer is empty"@)
    } else if parts.len() != 2 {
        Err("peer "@ + peer + " is invalid"@)
    } else {
        match parse_i32_spec(parts[0]) {
            None => Err("peer "@ + peer + " id is invalid"@),
            Some(id) => Ok((id, parts[1])),
        }
    }
}

/// Calls `Itertools::collect_tuple` on the parts, as a pair. itertools
/// returns the two items, in order, when there are exactly two, and `None`
/// otherwise.
#[verifier::external_body]
fn collect_pair(parts: Vec<String>) -> (r: Option<(String, String)>)
    ensures
        r is Some <==> parts@.len() == 2,
        r is Some ==> r->Some_0.0 == parts@[0] && r->Some_0.1 == parts@[1],
{
    parts.into_iter().collect_tuple()
}

/// The views of a list of strings.
pub open spec fn views(parts: Seq<String>) -> Seq<Seq<char>> {
    parts.map_values(|p: String| p@)
}

/// The pieces of `s` between its `@` signs, as `str::split('@')` yields
/// them.
fn split_at_sign(s: &str) -> (parts: Vec<String>)
    ensures
        views(parts@) == split_on(s@, '@'),
{
    let n = s.unicode_len();
    let mut parts: Vec<String> = Vec::new();
    let mut start: usize = 0;
    assert(s@.take(0) =~= Seq::<char>::empty());
    assert(views(parts@).push(s@.subrange(0, 0)) =~= split_on(s@.take(0), '@'));
    for i in 0..n
        invariant
            n == s@.len(),
            start <= i,
            split_on(s@.take(i as int), '@') == views(parts@).push(s@.subrange(start as int, i as int)),
    {
        let c = s.get_char(i);
        let ghost before = split_on(s@.take(i as int), '@');
        assert(s@.take(i + 1).drop_last() =~= s@.take(i as int));
        assert(s@.take(i + 1).last() == c);
        if c == '@' {
            let piece = String::from_str(s.substring_char(start, i));
            let ghost old_views = views(parts@);
            parts.push(piece);
            assert(views(parts@) =~= old_views.push(s@.subrange(start as int, i as int)));
            start = i + 1;
            assert(s@.subrange(start as int, (i + 1) as int) =~= Seq::<char>::empty());
            assert(views(parts@).push(s@.subrange(start as int, (i + 1) as int)) =~= before.push(
                Seq::<char>::empty(),
            ));
        } else {
            assert(s@.subrange(start as int, (i + 1) as int) =~= s@.subrange(
                start as int,
                i as int,
            ).push(c));
            assert(views(parts@).push(s@.subrange(start as int, (i + 1) as int)) =~= before.update(
                before.len() - 1,
                before.last().push(c),
            ));
        }
    }
    let last = String::from_str(s.substring_char(start, n));
    let ghost old_views = views(parts@);
    parts.push(last);
    assert(views(parts@) =~= old_views.push(s@.subrange(start as int, n as int)));
    assert(s@.take(n as int) =~= s@);
    assert(views(parts@) =~= split_on(s@, '@'));
    parts
}

/// Parsing stops counting at this value, above every `i32` magnitude.
const DIGITS_CAP: u64 = 2147483649;

proof fn lemma_digits_value_nonnegative(d: Seq<char>)
    requires
        forall|i: int| 0 <= i < d.len() ==> is_digit(#[trigger] d[i]),
    ensures
        digits_value(d) >= 0,
    decreases d.len(),
{
    if d.len() > 0 {
        let p = d.drop_last();
        assert forall|i: int| 0 <= i < p.len() implies is_digit(#[trigger] p[i]) by {
            assert(p[i] == d[i]);
        }
        lemma_digits_value_nonnegative(p);
    }
}

/// `s` parsed as an `i32` the way `str::parse::<i32>` parses it.
fn parse_i32(s: &str) -> (r: Option<i32>)
    ensures
        r == parse_i32_spec(s@),
{
    let n = s.unicode_len();
    if n == 0 {
        return None;
    }
    let first = s.get_char(0);
    let negative = first == '-';
    let start: usize = if first == '-' || first == '+' {
        1
    } else {
        0
    };
    let ghost digits = s@.subrange(start as int, n as int);
    assert(digits =~= unsigned_part(s@));
    if start == n {
        return None;
    }
    let mut acc: u64 = 0;
    let mut i: usize = start;
    assert(s@.subrange(start as int, start as int) =~= Seq::<char>::empty());
    while i < n
        invariant
            start <= i <= n,
            n == s@.len(),
            forall|k: int| start <= k < i ==> is_digit(#[trigger] s@[k]),
            negative == (s@.len() > 0 && s@[0] == '-'),
            s@.subrange(start as int, n as int) == unsigned_part(s@),
            acc == (if digits_value(s@.subrange(start as int, i as int)) < DIGITS_CAP {
                digits_value(s@.subrange(start as int, i as int))
            } else {
                DIGITS_CAP as int
            }),
        decreases n - i,
    {
        let c = s.get_char(i);
        if !('0' <= c && c <= '9') {
            proof {
                assert(s@.subrange(start as int, n as int)[i - start] == c);
                assert(!is_digit(unsigned_part(s@)[i - start]));
                assert(!all_digits(unsigned_part(s@)));
            }
            return None;
        }
        let ghost prev = s@.subrange(start as int, i as int);
        let ghost next = s@.subrange(start as int, (i + 1) as int);
        proof {
            assert(next.drop_last() =~= prev);
            assert(next.last() == c);
            assert forall|k: int| 0 <= k < prev.len() implies is_digit(#[trigger] prev[k]) by {
                assert(prev[k] == s@[start + k]);
            }
            lemma_digits_value_nonnegative(prev);
        }
        let d = (c as u32 - '0' as u32) as u64;
        let grown = acc * 10 + d;
        acc = if grown < DIGITS_CAP {
            grown
        } else {
            DIGITS_CAP
        };
        i = i + 1;
    }
    proof {
        assert(s@.subrange(start as int, n as int) == digits);
        assert forall|k: int| 0 <= k < digits.len() implies is_digit(#[trigger] digits[k]) by {
            assert(digits[k] == s@[start + k]);
        }
        assert(all_digits(digits));
    }
    if negative {
        if acc <= 2147483648 {
            Some((0 - acc as i64) as i32)
        } else {
            None
        }
    } else {
        if acc <= 2147483647 {
            Some(acc as i32)
        } else {
            None
        }
    }
}

/// Reads a peer given as `id@address`: exactly one `@`, with an `i32`
/// before it. Refuses an empty string, any other number of `@`, and an id
/// that does not parse, each with its own message.
pub fn validate_peers(peer: &str) -> (r: Result<ArgsPeer, String>)
    ensures
        match r {
            Ok(p) => peer_spec(peer@) == Ok::<(i32, Seq<char>), Seq<char>>((p.id, p.server@)),
            Err(e) => peer_spec(peer@) == Err::<(i32, Seq<char>), Seq<char>>(e@),
        },
{
    if peer.is_empty() {
        return Err(String::from_str("peer is empty"));
    }
    let parts = split_at_sign(peer);
    let ghost pieces = parts@;
    match collect_pair(parts) {
        None => {
            let mut msg = String::from_str("peer ");
            msg.append(peer);
            msg.append(" is invalid");
            Err(msg)
        },
        Some((id, server)) => {
            proof {
                assert(views(pieces)[0] == id@);
                assert(views(pieces)[1] == server@);
            }
            match parse_i32(id.as_str()) {
                None => {
                    let mut msg = String::from_str("peer ");
                    msg.append(peer);
                    msg.append(" id is invalid");
                    Err(msg)
                },
                Some(id) => Ok(ArgsPeer { id, server }),
            }
        },
    }
}

/// The decimal digit that writes `d`, for `d` below ten.
pub open spec fn digit_char(d: nat) -> char {
    if d == 0 {
        '0'
    } else if d == 1 {
        '1'
    } else if d == 2 {
        '2'
    } else if d == 3 {
        '3'
    } else if d == 4 {
        '4'
    } else if d == 5 {
        '5'
    } else if d == 6 {
        '6'
    } else if d == 7 {
        '7'
    } else if d == 8 {
        '8'
    } else {
        '9'
    }
}

/// The decimal digits of `n`, without leading zeros.
pub open spec fn decimal(n: nat) -> Seq<char>
    decreases n,
{
    let digit = digit_char(n % 10);
    if n < 10 {
        seq![digit]
    } else {
        decimal(n / 10).push(digit)
    }
}

/// `i` written in decimal, as `i32`'s `Display` writes it: a `-` before
/// negative values.
pub open spec fn i32_text(i: i32) -> Seq<char> {
    if i < 0 {
        seq!['-'] + decimal((-(i as int)) as nat)
    } else {
        decimal(i as nat)
    }
}

proof fn lemma_split_is_never_empty(s: Seq<char>, sep: char)
    ensures
        split_on(s, sep).len() >= 1,
    decreases s.len(),
{
    if s.len() > 0 {
        lemma_split_is_never_empty(s.drop_last(), sep);
    }
}

/// Appending text without a separator extends the last piece.
proof fn lemma_split_append(p: Seq<char>, b: Seq<char>, sep: char)
    requires
        !b.contains(sep),
    ensures
        split_on(p + b, sep) == split_on(p, sep).update(
            split_on(p, sep).len() - 1,
            split_on(p, sep).last() + b,
        ),
    decreases b.len(),
{
    lemma_split_is_never_empty(p, sep);
    let parts = split_on(p, sep);
    if b.len() == 0 {
        assert(p + b =~= p);
        assert(parts.last() + b =~= parts.last());
        assert(parts.update(parts.len() - 1, parts.last() + b) =~= parts);
    } else {
        let b0 = b.drop_last();
        assert(!b0.contains(sep)) by {
            if b0.contains(sep) {
                let k = choose|k: int| 0 <= k < b0.len() && b0[k] == sep;
                assert(b[k] == sep);
            }
        }
        assert(b.last() != sep) by {
            assert(b[b.len() - 1] == b.last());
        }
        lemma_split_append(p, b0, sep);
        assert((p + b).drop_last() =~= p + b0);
        assert((p + b).last() == b.last());
        assert((parts.last() + b0).push(b.last()) =~= parts.last() + b);
        assert(split_on(p + b, sep) =~= parts.update(parts.len() - 1, parts.last() + b));
    }
}

proof fn lemma_decimal_digits(n: nat)
    ensures
        decimal(n).len() > 0,
        all_digits(decimal(n)),
        !decimal(n).contains('@'),
        digits_value(decimal(n)) == n,
    decreases n,
{
    let digit = digit_char(n % 10);
    assert(is_digit(digit));
    assert(digit as int - '0' as int == n % 10);
    if n < 10 {
        assert(decimal(n) =~= seq![digit]);
        assert(decimal(n).drop_last() =~= Seq::<char>::empty());
        assert(digits_value(Seq::<char>::empty()) == 0);
        assert(n % 10 == n);
        assert(digits_value(decimal(n)) == digits_value(decimal(n).drop_last()) * 10 + (
        decimal(n).last() as int - '0' as int));
    } else {
        lemma_decimal_digits(n / 10);
        let d = decimal(n);
        let prev = decimal(n / 10);
        assert(d.drop_last() =~= prev);
        assert(d.last() == digit);
        assert(digits_value(d) == (n / 10) as int * 10 + (n % 10) as int);
        assert((n / 10) as int * 10 + (n % 10) as int == n) by (nonlinear_arith);
        assert forall|k: int| 0 <= k < d.len() implies is_digit(#[trigger] d[k]) by {
            if k < prev.len() {
                assert(d[k] == prev[k]);
            }
        }
        assert(!d.contains('@')) by {
            if d.contains('@') {
                let k = choose|k: int| 0 <= k < d.len() && d[k] == '@';
                assert(is_digit(d[k]));
            }
        }
    }
}

/// Every `i32` written in decimal parses back to itself.
pub proof fn lemma_i32_text_parses_back(i: i32)
    ensures
        parse_i32_spec(i32_text(i)) == Some(i),
        !i32_text(i).contains('@'),
{
    if i < 0 {
        let m = (-(i as int)) as nat;
        lemma_decimal_digits(m);
        let t = i32_text(i);
        assert(t[0] == '-');
        assert(unsigned_part(t) =~= decimal(m));
        assert(!t.contains('@')) by {
            if t.contains('@') {
                let k = choose|k: int| 0 <= k < t.len() && t[k] == '@';
                assert(k > 0);
                assert(t[k] == decimal(m)[k - 1]);
            }
        }
    } else {
        lemma_decimal_digits(i as nat);
        let t = i32_text(i);
        assert(is_digit(t[0]));
        assert(unsigned_part(t) == t);
    }
}

/// A peer written as `id@address`, with an id that parses and neither part
/// holding an `@`, is read back as that id and address.
pub proof fn lemma_peer_text_is_read_back(id_text: Seq<char>, server: Seq<char>, id: i32)
    requires
        parse_i32_spec(id_text) == Some(id),
        !id_text.contains('@'),
        !server.contains('@'),
    ensures
        peer_spec(id_text.push('@') + server) == Ok::<(i32, Seq<char>), Seq<char>>((id, server)),
{
    let e = Seq::<char>::empty();
    lemma_split_append(e, id_text, '@');
    assert(e + id_text =~= id_text);
    assert(split_on(e, '@') =~= seq![e]);
    assert(split_on(id_text, '@') =~= seq![id_text]);
    let with_sep = id_text.push('@');
    assert(with_sep.drop_last() =~= id_text);
    assert(split_on(with_sep, '@') =~= seq![id_text, e]);
    lemma_split_append(with_sep, server, '@');
    assert(e + server =~= server);
    assert(split_on(with_sep + server, '@') =~= seq![id_text, server]);
    assert((with_sep + server).len() > 0);
}

/// What `format!("{}@{}", id, server)` writes is read back as `id` and
/// `server`, for any address without an `@`.
pub proof fn lemma_formatted_peer_is_read_back(id: i32, server: Seq<char>)
    requires
        !server.contains('@'),
    ensures
        peer_spec(i32_text(id).push('@') + server) == Ok::<(i32, Seq<char>), Seq<char>>(
            (id, server),
        ),
{
    lemma_i32_text_parses_back(id);
    lemma_peer_text_is_read_back(i32_text(id), server, id);
}

/// A non-empty peer without an `@` is refused as invalid.
pub proof fn lemma_peer_without_separator_is_invalid(peer: Seq<char>)
    requires
        peer.len() > 0,
        !peer.contains('@'),
    ensures
        peer_spec(peer) == Err::<(i32, Seq<char>), Seq<char>>("peer "@ + peer + " is invalid"@),
{
    let e = Seq::<char>::empty();
    lemma_split_append(e, peer, '@');
    assert(e + peer =~= peer);
    assert(split_on(e, '@') =~= seq![e]);
}

/// An id with a character that is neither a digit nor a leading sign is
/// refused, whatever follows the `@`.
pub proof fn lemma_non_numeric_id_is_refused(id_text: Seq<char>, server: Seq<char>, k: int)
    requires
        !id_text.contains('@'),
        !server.contains('@'),
        0 <= k < id_text.len(),
        !is_digit(id_text[k]),
        !(k == 0 && (id_text[k] == '-' || id_text[k] == '+')),
    ensures
        peer_spec(id_text.push('@') + server) == Err::<(i32, Seq<char>), Seq<char>>(
            "peer "@ + (id_text.push('@') + server) + " id is invalid"@,
        ),
{
    let e = Seq::<char>::empty();
    lemma_split_append(e, id_text, '@');
    assert(e + id_text =~= id_text);
    assert(split_on(e, '@') =~= seq![e]);
    let with_sep = id_text.push('@');
    assert(with_sep.drop_last() =~= id_text);
    lemma_split_append(with_sep, server, '@');
    assert(e + server =~= server);
    assert(split_on(with_sep + server, '@') =~= seq![id_text, server]);
    assert((with_sep + server).len() > 0);
    let digits = unsigned_part(id_text);
    if id_text.len() > 0 && (id_text[0] == '-' || id_text[0] == '+') {
        assert(digits[k - 1] == id_text[k]);
        assert(!all_digits(digits));
    } else {
        assert(!all_digits(digits));
    }
}

/// A leading `+` before digits changes nothing, and a leading `-` negates
/// the value.
pub proof fn lemma_sign_of_id(t: Seq<char>)
    requires
        t.len() > 0,
        is_digit(t[0]),
    ensures
        parse_i32_spec(seq!['+'] + t) == parse_i32_spec(t),
        parse_i32_spec(t) matches Some(x) ==> parse_i32_spec(seq!['-'] + t) == Some((-x) as i32),
{
    assert(unsigned_part(seq!['+'] + t) =~= t);
    assert(unsigned_part(seq!['-'] + t) =~= t);
    assert(unsigned_part(t) == t);
    if parse_i32_spec(t) is Some {
        lemma_digits_value_nonnegative(t);
    }
}

} // verus!
