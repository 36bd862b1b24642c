use vstd::prelude::*;
use crate::ip::IpAddr;
use vstd::string::StringSliceAdditionalSpecFns;

verus! {

/// A range of addresses that a peer may carry: an address and a prefix
/// length no larger than the address family's width.
#[derive(Clone, Copy, Debug, PartialEq, Eq, Structural)]
pub struct AllowedIP {
    pub addr: IpAddr,
    pub cidr: u8,
}

impl AllowedIP {
    pub open spec fn wf(self) -> bool {
        self.cidr as nat <= self.addr.width()
    }

    /// Parses the textual form `<address>/<prefix>`. The caller parses the
    /// text before the slash (see `cidr_separator`) as an IP address and
    /// hands the outcome in as `addr`; this function decides the rest of the
    /// format.
    pub fn parse(text: &str, addr: Option<IpAddr>) -> (r: Result<AllowedIP, String>)
        ensures
            r is Ok <==> (slash_count(text.spec_bytes()) == 1 && addr is Some && prefix_value(
                after_slash(text.spec_bytes()),
            ) is Some && prefix_value(after_slash(text.spec_bytes()))->0 <= addr->0.width()),
            r is Ok ==> r->Ok_0.addr == addr->0 && r->Ok_0.cidr as nat == prefix_value(
                after_slash(text.spec_bytes()),
            )->0,
            r is Ok ==> r->Ok_0.wf(),
            r is Err ==> r->Err_0@ == "Invalid IP format"@,
    {
        let bytes = text.as_bytes();
        // The length fits in a usize, and so does the position after the slash.
        let _len = bytes.len();
        match cidr_separator(bytes) {
            None => Err("Invalid IP format".to_owned()),
            Some(i) => {
                proof {
                    lemma_after_slash(bytes@, i as int);
                }
                let cidr = parse_prefix_from(bytes, i + 1);
                match (addr, cidr) {
                    (Some(a), Some(c)) => {
                        if c <= a.max_prefix() {
                            Ok(AllowedIP { addr: a, cidr: c })
                        } else {
                            Err("Invalid IP format".to_owned())
                        }
                    },
                    _ => Err("Invalid IP format".to_owned()),
                }
            },
        }
    }
}

pub open spec fn is_digit(b: u8) -> bool {
    48 <= b <= 57
}

/// The value of a string of decimal digits.
pub open spec fn dec_value(s: Seq<u8>) -> nat
    decreases s.len(),
{
    if s.len() == 0 {
        0
    } else {
        dec_value(s.drop_last()) * 10 + (s.last() - 48) as nat
    }
}

pub open spec fn all_digits(s: Seq<u8>) -> bool {
    forall|i: int| 0 <= i < s.len() ==> is_digit(#[trigger] s[i])
}

/// The number that a prefix text denotes: an optional `+`, then one or more
/// decimal digits. Leading zeros are allowed.
pub open spec fn number_value(s: Seq<u8>) -> Option<nat> {
    let body = if s.len() > 0 && s[0] == 43u8 {
        s.subrange(1, s.len() as int)
    } else {
        s
    };
    if body.len() > 0 && all_digits(body) {
        Some(dec_value(body))
    } else {
        None
    }
}

/// The prefix length that a text denotes: a number that fits in a byte.
pub open spec fn prefix_value(s: Seq<u8>) -> Option<nat> {
    match number_value(s) {
        Some(n) => if n <= 255 {
            Some(n)
        } else {
            None
        },
        None => None,
    }
}

/// How many slashes a text holds.
pub open spec fn slash_count(s: Seq<u8>) -> nat
    decreases s.len(),
{
    if s.len() == 0 {
        0
    } else {
        slash_count(s.drop_last()) + if s.last() == 47u8 {
            1nat
        } else {
            0nat
        }
    }
}

/// The text after the first slash (all of it where there is none).
pub open spec fn after_slash(s: Seq<u8>) -> Seq<u8>
    decreases s.len(),
{
    if s.len() == 0 {
        s
    } else if s[0] == 47u8 {
        s.subrange(1, s.len() as int)
    } else {
        after_slash(s.subrange(1, s.len() as int))
    }
}

proof fn lemma_slash_count_push(s: Seq<u8>, b: u8)
    ensures
        slash_count(s.push(b)) == slash_count(s) + if b == 47u8 {
            1nat
        } else {
            0nat
        },
{
    assert(s.push(b).drop_last() =~= s);
}

proof fn lemma_after_slash(s: Seq<u8>, i: int)
    requires
        0 <= i < s.len(),
        s[i] == 47u8,
        forall|j: int| 0 <= j < i ==> s[j] != 47u8,
    ensures
        after_slash(s) == s.subrange(i + 1, s.len() as int),
    decreases i,
{
    if i > 0 {
        let t = s.subrange(1, s.len() as int);
        lemma_after_slash(t, i - 1);
        assert(t.subrange(i, t.len() as int) =~= s.subrange(i + 1, s.len() as int));
    }
}

/// The position of the one slash of a text, or `None` where the text holds
/// no slash or more than one.
pub fn cidr_separator(s: &[u8]) -> (r: Option<usize>)
    ensures
        r is Some <==> slash_count(s@) == 1,
        r matches Some(i) ==> i < s@.len() && s@[i as int] == 47u8 && forall|j: int|
            0 <= j < s@.len() && j != i ==> s@[j] != 47u8,
{
    let mut count: usize = 0;
    let mut first: usize = 0;
    let mut k: usize = 0;
    while k < s.len()
        invariant
            k <= s@.len(),
            count as nat == slash_count(s@.subrange(0, k as int)),
            count == 0 ==> forall|j: int| 0 <= j < k ==> s@[j] != 47u8,
            count >= 1 ==> first < k && s@[first as int] == 47u8,
            count >= 1 ==> forall|j: int| 0 <= j < first ==> s@[j] != 47u8,
            count == 1 ==> forall|j: int| 0 <= j < k && j != first ==> s@[j] != 47u8,
            count <= k,
        decreases s@.len() - k,
    {
        proof {
            assert(s@.subrange(0, k + 1) =~= s@.subrange(0, k as int).push(s@[k as int]));
            lemma_slash_count_push(s@.subrange(0, k as int), s@[k as int]);
        }
        if s[k] == 47u8 {
            if count == 0 {
                first = k;
            }
            count = count + 1;
        }
        k = k + 1;
    }
    assert(s@.subrange(0, s@.len() as int) =~= s@);
    if count == 1 {
        Some(first)
    } else {
        None
    }
}

proof fn lemma_dec_value_push(s: Seq<u8>, b: u8)
    ensures
        dec_value(s.push(b)) == dec_value(s) * 10 + (b - 48) as nat,
{
    assert(s.push(b).drop_last() =~= s);
}

/// Reads the prefix length in `s[start..]`.
fn parse_prefix_from(s: &[u8], start: usize) -> (r: Option<u8>)
    requires
        start <= s@.len(),
    ensures
        r matches Some(v) ==> prefix_value(s@.subrange(start as int, s@.len() as int)) == Some(
            v as nat,
        ),
        r is None ==> prefix_value(s@.subrange(start as int, s@.len() as int)) is None,
{
    let ghost t = s@.subrange(start as int, s@.len() as int);
    let mut k: usize = start;
    if k < s.len() && s[k] == 43u8 {
        k = k + 1;
    }
    let ghost body = s@.subrange(k as int, s@.len() as int);
    assert(body =~= (if t.len() > 0 && t[0] == 43u8 {
        t.subrange(1, t.len() as int)
    } else {
        t
    }));
    if k == s.len() {
        return None;
    }
    let body_start = k;
    let mut val: u32 = 0;
    while k < s.len()
        invariant
            body_start <= k <= s@.len(),
            body == s@.subrange(body_start as int, s@.len() as int),
            t == s@.subrange(start as int, s@.len() as int),
            body == (if t.len() > 0 && t[0] == 43u8 {
                t.subrange(1, t.len() as int)
            } else {
                t
            }),
            all_digits(s@.subrange(body_start as int, k as int)),
            val as nat == if dec_value(s@.subrange(body_start as int, k as int)) < 256 {
                dec_value(s@.subrange(body_start as int, k as int))
            } else {
                256
            },
        decreases s@.len() - k,
    {
        let b = s[k];
        if b < 48u8 || b > 57u8 {
            assert(body[k - body_start] == b);
            assert(!all_digits(body));
            assert(number_value(t) is None);
            return None;
        }
        let ghost pre = s@.subrange(body_start as int, k as int);
        proof {
            assert(s@.subrange(body_start as int, k + 1) =~= pre.push(b));
            lemma_dec_value_push(pre, b);
        }
        let next: u32 = val * 10 + (b - 48u8) as u32;
        val = if next < 256 {
            next
        } else {
            256
        };
        k = k + 1;
    }
    assert(s@.subrange(body_start as int, k as int) =~= body);
    if val < 256 {
        Some(val as u8)
    } else {
        None
    }
}

/// Parses a prefix length: an optional `+` and decimal digits, with a value
/// that fits in a byte.
pub fn parse_prefix(s: &str) -> (r: Option<u8>)
    ensures
        r matches Some(v) ==> prefix_value(s.spec_bytes()) == Some(v as nat),
        r is None ==> prefix_value(s.spec_bytes()) is None,
{
    let b = s.as_bytes();
    assert(b@.subrange(0, b@.len() as int) =~= b@);
    parse_prefix_from(b, 0)
}

/// The decimal digits of `n`, without leading zeros.
pub open spec fn dec_text(n: nat) -> Seq<u8>
    decreases n,
{
    if n < 10 {
        seq![(48 + n) as u8]
    } else {
        dec_text(n / 10).push((48 + n % 10) as u8)
    }
}

proof fn lemma_dec_text(n: nat)
    ensures
        dec_text(n).len() > 0,
        all_digits(dec_text(n)),
        dec_value(dec_text(n)) == n,
    decreases n,
{
    if n < 10 {
        assert(seq![(48 + n) as u8].drop_last() =~= Seq::<u8>::empty());
        assert(dec_value(Seq::<u8>::empty()) == 0);
        assert(((48 + n) as u8) as int == 48 + n);
    } else {
        assert(((48 + n % 10) as u8) as int == 48 + n % 10);
        lemma_dec_text(n / 10);
        lemma_dec_value_push(dec_text(n / 10), (48 + n % 10) as u8);
        assert((n / 10) * 10 + n % 10 == n) by (nonlinear_arith);
    }
}

proof fn lemma_slash_count_concat(a: Seq<u8>, b: Seq<u8>)
    ensures
        slash_count(a + b) == slash_count(a) + slash_count(b),
    decreases b.len(),
{
    if b.len() > 0 {
        lemma_slash_count_concat(a, b.drop_last());
        assert((a + b).drop_last() =~= a + b.drop_last());
    } else {
        assert(a + b =~= a);
    }
}

proof fn lemma_slash_count_none(s: Seq<u8>)
    requires
        forall|i: int| 0 <= i < s.len() ==> s[i] != 47u8,
    ensures
        slash_count(s) == 0,
    decreases s.len(),
{
    if s.len() > 0 {
        lemma_slash_count_none(s.drop_last());
    }
}

/// Renders a prefix length in decimal.
pub fn prefix_text(n: u8) -> (r: Vec<u8>)
    ensures
        r@ == dec_text(n as nat),
{
    let mut r: Vec<u8> = Vec::new();
    if n >= 100 {
        r.push(48 + n / 100);
    }
    if n >= 10 {
        r.push(48 + (n / 10) % 10);
    }
    r.push(48 + n % 10);
    proof {
        let m = n as nat;
        if m >= 100 {
            assert(dec_text(m / 100) == seq![(48 + m / 100) as u8]);
            assert((m / 10) / 10 == m / 100);
            assert(dec_text(m / 10) == dec_text(m / 100).push((48 + (m / 10) % 10) as u8));
        } else if m >= 10 {
            assert(dec_text(m / 10) == seq![(48 + m / 10) as u8]);
        }
        assert(r@ =~= dec_text(m));
    }
    r
}

/// The decimal text of a prefix length reads back as that length.
pub proof fn lemma_prefix_round_trip(n: u8)
    ensures
        prefix_value(dec_text(n as nat)) == Some(n as nat),
{
    lemma_dec_text(n as nat);
    let t = dec_text(n as nat);
    assert(is_digit(t[0]));
}

/// Rendering a range as its address text, a slash and its prefix length in
/// decimal gives a text that `AllowedIP::parse` reads back as the same
/// range, given that the address text holds no slash and reads back as the
/// address.
pub proof fn lemma_text_round_trip(addr_text: Seq<u8>, ip: AllowedIP)
    requires
        ip.wf(),
        forall|i: int| 0 <= i < addr_text.len() ==> addr_text[i] != 47u8,
    ensures
        slash_count(addr_text + seq![47u8] + dec_text(ip.cidr as nat)) == 1,
        after_slash(addr_text + seq![47u8] + dec_text(ip.cidr as nat)) == dec_text(ip.cidr as nat),
        prefix_value(after_slash(addr_text + seq![47u8] + dec_text(ip.cidr as nat))) == Some(
            ip.cidr as nat,
        ),
        prefix_value(after_slash(addr_text + seq![47u8] + dec_text(ip.cidr as nat)))->0
            <= ip.addr.width(),
{
    let d = dec_text(ip.cidr as nat);
    let t = addr_text + seq![47u8] + d;
    lemma_dec_text(ip.cidr as nat);
    lemma_prefix_round_trip(ip.cidr);
    lemma_slash_count_none(addr_text);
    lemma_slash_count_none(d);
    lemma_slash_count_concat(addr_text, seq![47u8]);
    lemma_slash_count_concat(addr_text + seq![47u8], d);
    assert(seq![47u8].drop_last() =~= Seq::<u8>::empty());
    assert(slash_count(Seq::<u8>::empty()) == 0);
    assert(slash_count(seq![47u8]) == 1);
    let i = addr_text.len() as int;
    assert(t[i] == 47u8);
    assert forall|j: int| 0 <= j < i implies t[j] != 47u8 by {
        assert(t[j] == addr_text[j]);
    }
    lemma_after_slash(t, i);
    assert(t.subrange(i + 1, t.len() as int) =~= d);
}

} // verus!
