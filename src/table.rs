use vstd::prelude::*;
use crate::ip::{IpAddr, range_contains, contains, net_addr, network, lemma_net_addr, lemma_same_prefix_net_addr};
use crate::allowed_ip::AllowedIP;

verus! {

/// Whether the range `r` holds `addr`.
pub open spec fn covers(r: AllowedIP, addr: IpAddr) -> bool {
    range_contains(r.addr, r.cidr, addr)
}

/// Whether two ranges are the same: one prefix length, and the address of
/// each lies in the other.
pub open spec fn same_range(a: AllowedIP, b: AllowedIP) -> bool {
    a.cidr == b.cidr && covers(a, b.addr)
}

/// Whether some range of `s` holds `addr`.
pub open spec fn allows(s: Seq<AllowedIP>, addr: IpAddr) -> bool {
    exists|i: int| 0 <= i < s.len() && covers(#[trigger] s[i], addr)
}

/// Whether `s[i]` is a longest-prefix match for `addr` in `s`.
pub open spec fn longest_match(s: Seq<AllowedIP>, addr: IpAddr, i: int) -> bool {
    &&& 0 <= i < s.len()
    &&& covers(s[i], addr)
    &&& forall|j: int| 0 <= j < s.len() && covers(#[trigger] s[j], addr) ==> s[j].cidr <= s[i].cidr
}

/// The canonical form of a range: its network address and prefix length.
pub open spec fn canon(r: AllowedIP) -> AllowedIP {
    AllowedIP { addr: net_addr(r.addr, r.cidr), cidr: r.cidr }
}

/// The ranges after `x` is inserted into `s`: unchanged where `s` holds the
/// same range already, else with the canonical form of `x` at the end.
pub open spec fn insert_range(s: Seq<AllowedIP>, x: AllowedIP) -> Seq<AllowedIP> {
    if exists|i: int| 0 <= i < s.len() && same_range(#[trigger] s[i], x) {
        s
    } else {
        s.push(canon(x))
    }
}

/// The ranges after each of `list` is inserted into `s` in turn.
pub open spec fn insert_ranges(s: Seq<AllowedIP>, list: Seq<AllowedIP>) -> Seq<AllowedIP>
    decreases list.len(),
{
    if list.len() == 0 {
        s
    } else {
        insert_range(insert_ranges(s, list.drop_last()), list.last())
    }
}

/// Every range is well formed and canonical, and no two are the same range.
pub open spec fn table_wf(s: Seq<AllowedIP>) -> bool {
    &&& forall|i: int| 0 <= i < s.len() ==> (#[trigger] s[i]).wf() && s[i] == canon(s[i])
    &&& forall|i: int, j: int|
        0 <= i < s.len() && 0 <= j < s.len() && i != j ==> !same_range(#[trigger] s[i], #[trigger] s[j])
}

pub open spec fn all_wf(list: Seq<AllowedIP>) -> bool {
    forall|i: int| 0 <= i < list.len() ==> (#[trigger] list[i]).wf()
}

/// Whether `r` is the canonical form of some range of `list`.
pub open spec fn canon_of_some(list: Seq<AllowedIP>, r: AllowedIP) -> bool {
    exists|k: int| 0 <= k < list.len() && r == canon(#[trigger] list[k])
}

/// The set of address ranges a peer is allowed to carry.
pub struct AllowedIps {
    entries: Vec<AllowedIP>,
}

impl View for AllowedIps {
    type V = Seq<AllowedIP>;

    closed spec fn view(&self) -> Seq<AllowedIP> {
        self.entries@
    }
}

proof fn lemma_insert_range(s: Seq<AllowedIP>, x: AllowedIP)
    requires
        table_wf(s),
        x.wf(),
    ensures
        table_wf(insert_range(s, x)),
        forall|a: IpAddr| allows(insert_range(s, x), a) <==> (allows(s, a) || covers(x, a)),
        forall|r: AllowedIP| insert_range(s, x).contains(r) <==> (s.contains(r) || r == canon(x)),
{
    let t = insert_range(s, x);
    lemma_net_addr(x.addr, x.cidr);
    if exists|i: int| 0 <= i < s.len() && same_range(#[trigger] s[i], x) {
        let k = choose|i: int| 0 <= i < s.len() && same_range(#[trigger] s[i], x);
        lemma_same_prefix_net_addr(s[k].addr, x.addr, x.cidr);
        assert(s[k] == canon(x));
        assert forall|a: IpAddr| covers(x, a) implies allows(s, a) by {
            assert(covers(s[k], a));
        }
        assert forall|r: AllowedIP| r == canon(x) implies s.contains(r) by {
            assert(s[k] == r);
        }
    } else {
        let c = canon(x);
        assert forall|i: int, j: int|
            0 <= i < t.len() && 0 <= j < t.len() && i != j implies !same_range(
            #[trigger] t[i],
            #[trigger] t[j],
        ) by {
            if i == s.len() && j < s.len() {
                if same_range(t[i], t[j]) {
                    assert(same_range(s[j], x));
                }
            } else if j == s.len() && i < s.len() {
                if same_range(t[i], t[j]) {
                    assert(same_range(s[i], x));
                }
            } else {
                assert(t[i] == s[i] && t[j] == s[j]);
            }
        }
        assert forall|a: IpAddr| allows(t, a) <==> (allows(s, a) || covers(x, a)) by {
            if allows(t, a) {
                let i = choose|i: int| 0 <= i < t.len() && covers(#[trigger] t[i], a);
                if i < s.len() {
                    assert(covers(s[i], a));
                }
            }
            if allows(s, a) {
                let i = choose|i: int| 0 <= i < s.len() && covers(#[trigger] s[i], a);
                assert(covers(t[i], a));
            }
            if covers(x, a) {
                assert(covers(t[s.len() as int], a));
            }
        }
        assert forall|r: AllowedIP| t.contains(r) <==> (s.contains(r) || r == c) by {
            if t.contains(r) {
                let i = choose|i: int| 0 <= i < t.len() && t[i] == r;
                if i < s.len() {
                    assert(s[i] == r);
                }
            }
            if s.contains(r) {
                let i = choose|i: int| 0 <= i < s.len() && s[i] == r;
                assert(t[i] == r);
            }
            if r == c {
                assert(t[s.len() as int] == r);
            }
        }
    }
}

/// Inserting ranges in turn: the table stays well formed, an address is
/// allowed afterwards exactly when it was before or a range of `list` holds
/// it, and the ranges afterwards are those of before and the canonical
/// forms of those of `list`.
pub proof fn lemma_insert_ranges(s: Seq<AllowedIP>, list: Seq<AllowedIP>)
    requires
        table_wf(s),
        all_wf(list),
    ensures
        table_wf(insert_ranges(s, list)),
        forall|a: IpAddr| allows(insert_ranges(s, list), a) <==> (allows(s, a) || allows(list, a)),
        forall|r: AllowedIP|
            insert_ranges(s, list).contains(r) <==> (s.contains(r) || canon_of_some(list, r)),
    decreases list.len(),
{
    if list.len() > 0 {
        let init = list.drop_last();
        let x = list.last();
        assert(all_wf(init)) by {
            assert forall|i: int| 0 <= i < init.len() implies (#[trigger] init[i]).wf() by {
                assert(init[i] == list[i]);
            }
        }
        lemma_insert_ranges(s, init);
        assert(x.wf()) by {
            assert(list[list.len() - 1].wf());
        }
        lemma_insert_range(insert_ranges(s, init), x);
        assert forall|a: IpAddr| allows(list, a) <==> (allows(init, a) || covers(x, a)) by {
            if allows(list, a) {
                let i = choose|i: int| 0 <= i < list.len() && covers(#[trigger] list[i], a);
                if i < init.len() {
                    assert(covers(init[i], a));
                }
            }
            if allows(init, a) {
                let i = choose|i: int| 0 <= i < init.len() && covers(#[trigger] init[i], a);
                assert(covers(list[i], a));
            }
            if covers(x, a) {
                assert(covers(list[list.len() - 1], a));
            }
        }
        assert forall|r: AllowedIP| canon_of_some(list, r) <==> (canon_of_some(init, r) || r == canon(x)) by {
            if canon_of_some(list, r) {
                let k = choose|k: int| 0 <= k < list.len() && r == canon(#[trigger] list[k]);
                if k < init.len() {
                    assert(r == canon(init[k]));
                }
            }
            if canon_of_some(init, r) {
                let k = choose|k: int| 0 <= k < init.len() && r == canon(#[trigger] init[k]);
                assert(r == canon(list[k]));
            }
            if r == canon(x) {
                assert(r == canon(list[list.len() - 1]));
            }
        }
    }
}

/// Inserting ranges that the table holds already changes nothing: in
/// particular, adding one list twice leaves what adding it once left.
pub proof fn lemma_insert_present(s: Seq<AllowedIP>, list: Seq<AllowedIP>)
    requires
        table_wf(s),
        all_wf(list),
        forall|k: int| 0 <= k < list.len() ==> s.contains(canon(#[trigger] list[k])),
    ensures
        insert_ranges(s, list) == s,
    decreases list.len(),
{
    if list.len() > 0 {
        let init = list.drop_last();
        let x = list.last();
        assert forall|k: int| 0 <= k < init.len() implies s.contains(canon(#[trigger] init[k])) by {
            assert(init[k] == list[k]);
        }
        assert(all_wf(init)) by {
            assert forall|i: int| 0 <= i < init.len() implies (#[trigger] init[i]).wf() by {
                assert(init[i] == list[i]);
            }
        }
        lemma_insert_present(s, init);
        assert(x.wf()) by {
            assert(list[list.len() - 1].wf());
        }
        assert(s.contains(canon(list[list.len() - 1])));
        let i = choose|i: int| 0 <= i < s.len() && s[i] == canon(x);
        lemma_net_addr(x.addr, x.cidr);
        assert(same_range(s[i], x));
    }
}

/// Adding a list twice leaves the table that adding it once left.
pub proof fn lemma_add_twice(s: Seq<AllowedIP>, list: Seq<AllowedIP>)
    requires
        table_wf(s),
        all_wf(list),
    ensures
        insert_ranges(insert_ranges(s, list), list) == insert_ranges(s, list),
{
    lemma_insert_ranges(s, list);
    let t = insert_ranges(s, list);
    assert forall|k: int| 0 <= k < list.len() implies t.contains(canon(#[trigger] list[k])) by {
        assert(canon_of_some(list, canon(list[k])));
    }
    lemma_insert_present(t, list);
}

/// The order in which two lists are added changes neither the ranges that
/// the table holds nor which addresses it allows.
pub proof fn lemma_add_order(s: Seq<AllowedIP>, l1: Seq<AllowedIP>, l2: Seq<AllowedIP>)
    requires
        table_wf(s),
        all_wf(l1),
        all_wf(l2),
    ensures
        forall|r: AllowedIP|
            insert_ranges(insert_ranges(s, l1), l2).contains(r) <==> insert_ranges(
                insert_ranges(s, l2),
                l1,
            ).contains(r),
        forall|a: IpAddr|
            allows(insert_ranges(insert_ranges(s, l1), l2), a) <==> allows(
                insert_ranges(insert_ranges(s, l2), l1),
                a,
            ),
{
    let s1 = insert_ranges(s, l1);
    let s2 = insert_ranges(s, l2);
    lemma_insert_ranges(s, l1);
    lemma_insert_ranges(s, l2);
    lemma_insert_ranges(s1, l2);
    lemma_insert_ranges(s2, l1);
    assert forall|r: AllowedIP| insert_ranges(s1, l2).contains(r) <==> insert_ranges(s2, l1).contains(r) by {
        assert(insert_ranges(s1, l2).contains(r) <==> (s1.contains(r) || canon_of_some(l2, r)));
        assert(insert_ranges(s2, l1).contains(r) <==> (s2.contains(r) || canon_of_some(l1, r)));
        assert(s1.contains(r) <==> (s.contains(r) || canon_of_some(l1, r)));
        assert(s2.contains(r) <==> (s.contains(r) || canon_of_some(l2, r)));
    }
    assert forall|a: IpAddr| allows(insert_ranges(s1, l2), a) <==> allows(insert_ranges(s2, l1), a) by {
        assert(allows(insert_ranges(s1, l2), a) <==> (allows(s1, a) || allows(l2, a)));
        assert(allows(insert_ranges(s2, l1), a) <==> (allows(s2, a) || allows(l1, a)));
        assert(allows(s1, a) <==> (allows(s, a) || allows(l1, a)));
        assert(allows(s2, a) <==> (allows(s, a) || allows(l2, a)));
    }
}

/// Replacing the contents by `list` leaves nothing of what the table held
/// before: afterwards an address is allowed exactly when a range of `list`
/// holds it, and the ranges held are the canonical forms of those of `list`.
pub proof fn lemma_replace_forgets(list: Seq<AllowedIP>, addr: IpAddr)
    requires
        all_wf(list),
    ensures
        table_wf(insert_ranges(Seq::empty(), list)),
        allows(insert_ranges(Seq::empty(), list), addr) <==> allows(list, addr),
        forall|r: AllowedIP|
            insert_ranges(Seq::empty(), list).contains(r) <==> canon_of_some(list, r),
{
    lemma_insert_ranges(Seq::empty(), list);
}

/// Where two stored ranges hold `addr` and the second is more specific,
/// the longest match is at least as specific as the second, so the less
/// specific range never decides; and in a well-formed table the longest
/// match is one range only.
pub proof fn lemma_more_specific_wins(s: Seq<AllowedIP>, addr: IpAddr, wide: int, narrow: int, k: int)
    requires
        table_wf(s),
        0 <= wide < s.len(),
        0 <= narrow < s.len(),
        covers(s[wide], addr),
        covers(s[narrow], addr),
        s[wide].cidr < s[narrow].cidr,
        longest_match(s, addr, k),
    ensures
        s[k].cidr >= s[narrow].cidr,
        k != wide,
        forall|m: int| longest_match(s, addr, m) ==> m == k,
{
    assert(covers(s[narrow], addr));
    assert forall|m: int| longest_match(s, addr, m) implies m == k by {
        assert(s[m].cidr == s[k].cidr);
        if m != k {
            assert(same_range(s[m], s[k]));
        }
    }
}

impl AllowedIps {
    pub open spec fn wf(&self) -> bool {
        table_wf(self@)
    }

    /// A table without ranges.
    pub fn new() -> (r: AllowedIps)
        ensures
            r.wf(),
            r@ == Seq::<AllowedIP>::empty(),
    {
        AllowedIps { entries: Vec::new() }
    }

    /// A table that holds the ranges of `list`, inserted in turn.
    pub fn from_list(list: &[AllowedIP]) -> (r: AllowedIps)
        requires
            all_wf(list@),
        ensures
            r.wf(),
            r@ == insert_ranges(Seq::empty(), list@),
    {
        let mut r = AllowedIps::new();
        r.insert_all(list);
        r
    }

    /// The ranges, in the order in which they were first inserted.
    pub fn entries(&self) -> (r: Vec<AllowedIP>)
        ensures
            r@ == self@,
    {
        let mut out: Vec<AllowedIP> = Vec::new();
        let mut i: usize = 0;
        while i < self.entries.len()
            invariant
                i <= self.entries@.len(),
                out@ == self.entries@.subrange(0, i as int),
            decreases self.entries@.len() - i,
        {
            out.push(self.entries[i]);
            i = i + 1;
            assert(out@ =~= self.entries@.subrange(0, i as int));
        }
        assert(self.entries@.subrange(0, i as int) =~= self.entries@);
        out
    }

    /// Inserts one range in its canonical form, unless the table holds the
    /// same range already.
    pub fn insert(&mut self, x: AllowedIP)
        requires
            old(self).wf(),
            x.wf(),
        ensures
            final(self).wf(),
            final(self)@ == insert_range(old(self)@, x),
    {
        let ghost s0 = self.entries@;
        proof {
            lemma_insert_range(s0, x);
        }
        let mut i: usize = 0;
        while i < self.entries.len()
            invariant
                i <= self.entries@.len(),
                self.entries@ == s0,
                s0 == old(self)@,
                table_wf(s0),
                table_wf(insert_range(s0, x)),
                forall|j: int| 0 <= j < i ==> !same_range(#[trigger] self.entries@[j], x),
            decreases self.entries@.len() - i,
        {
            let e = self.entries[i];
            if e.cidr == x.cidr && contains(e.addr, e.cidr, x.addr) {
                assert(same_range(s0[i as int], x));
                return;
            }
            i = i + 1;
        }
        let c = AllowedIP { addr: network(x.addr, x.cidr), cidr: x.cidr };
        self.entries.push(c);
        assert(self.entries@ == insert_range(s0, x));
    }

    /// Inserts each range of `list` in turn.
    pub fn insert_all(&mut self, list: &[AllowedIP])
        requires
            old(self).wf(),
            all_wf(list@),
        ensures
            final(self).wf(),
            final(self)@ == insert_ranges(old(self)@, list@),
    {
        let ghost start = self@;
        let mut i: usize = 0;
        while i < list.len()
            invariant
                i <= list@.len(),
                self.wf(),
                all_wf(list@),
                self@ == insert_ranges(start, list@.subrange(0, i as int)),
            decreases list@.len() - i,
        {
            let x = list[i];
            self.insert(x);
            proof {
                let l = list@.subrange(0, i + 1);
                assert(l.drop_last() =~= list@.subrange(0, i as int));
            }
            i = i + 1;
        }
        assert(list@.subrange(0, i as int) =~= list@);
    }

    /// Replaces the whole contents by the ranges of `list`.
    pub fn set_all(&mut self, list: &[AllowedIP])
        requires
            all_wf(list@),
        ensures
            final(self).wf(),
            final(self)@ == insert_ranges(Seq::empty(), list@),
    {
        *self = AllowedIps::from_list(list);
    }

    /// The index of the range with the longest prefix that holds `addr`.
    pub fn find(&self, addr: IpAddr) -> (r: Option<usize>)
        ensures
            r is None <==> !allows(self@, addr),
            r matches Some(i) ==> longest_match(self@, addr, i as int),
    {
        let mut best: Option<usize> = None;
        let mut i: usize = 0;
        while i < self.entries.len()
            invariant
                i <= self.entries@.len(),
                best is None ==> forall|j: int| 0 <= j < i ==> !covers(#[trigger] self.entries@[j], addr),
                best matches Some(b) ==> b < i && covers(self.entries@[b as int], addr) && forall|j: int|
                    0 <= j < i && covers(#[trigger] self.entries@[j], addr) ==> self.entries@[j].cidr
                        <= self.entries@[b as int].cidr,
            decreases self.entries@.len() - i,
        {
            let e = self.entries[i];
            if contains(e.addr, e.cidr, addr) {
                match best {
                    None => {
                        best = Some(i);
                    },
                    Some(b) => {
                        if e.cidr > self.entries[b].cidr {
                            best = Some(i);
                        }
                    },
                }
            }
            i = i + 1;
        }
        best
    }

    /// Whether some range holds `addr`.
    pub fn contains_addr(&self, addr: IpAddr) -> (r: bool)
        ensures
            r == allows(self@, addr),
    {
        self.find(addr).is_some()
    }
}

} // verus!
