use vstd::prelude::*;

verus! {

/// An account or contract address, identified by the bytes of its textual
/// (strkey) form. Two addresses are the same address exactly when these
/// bytes are equal.
pub struct Address {
    bytes: Vec<u8>,
}

impl View for Address {
    type V = Seq<u8>;

    closed spec fn view(&self) -> Seq<u8> {
        self.bytes@
    }
}

/// The views of a sequence of addresses.
pub open spec fn addr_views(s: Seq<Address>) -> Seq<Seq<u8>> {
    s.map_values(|a: Address| a@)
}

impl Address {
    /// The address whose textual form is `bytes`.
    pub fn new(bytes: Vec<u8>) -> (a: Address)
        ensures
            a@ == bytes@,
    {
        Address { bytes }
    }

    /// The bytes of the textual form of this address.
    pub fn to_bytes(&self) -> (r: Vec<u8>)
        ensures
            r@ == self@,
    {
        let mut r: Vec<u8> = Vec::new();
        let n = self.bytes.len();
        for i in 0..n
            invariant
                n == self.bytes@.len(),
                r@ == self.bytes@.take(i as int),
        {
            r.push(self.bytes[i]);
            assert(self.bytes@.take(i + 1) =~= self.bytes@.take(i as int).push(self.bytes@[i as int]));
        }
        assert(self.bytes@.take(n as int) =~= self.bytes@);
        r
    }

    /// A second copy of this address.
    pub fn duplicate(&self) -> (r: Address)
        ensures
            r@ == self@,
    {
        Address { bytes: self.to_bytes() }
    }

    /// Whether `self` and `other` are the same address.
    pub fn same_as(&self, other: &Address) -> (r: bool)
        ensures
            r == (self@ == other@),
    {
        let n = self.bytes.len();
        if n != other.bytes.len() {
            return false;
        }
        for i in 0..n
            invariant
                n == self.bytes@.len(),
                n == other.bytes@.len(),
                forall|j: int| 0 <= j < i ==> self.bytes@[j] == other.bytes@[j],
        {
            if self.bytes[i] != other.bytes[i] {
                return false;
            }
        }
        assert(self.bytes@ =~= other.bytes@);
        true
    }
}

/// The first position at which `a` occurs in `list`, if any.
pub fn position_of(list: &Vec<Address>, a: &Address) -> (r: Option<usize>)
    ensures
        match r {
            Some(i) => i < list@.len() && list@[i as int]@ == a@
                && forall|j: int| 0 <= j < i ==> list@[j]@ != a@,
            None => !addr_views(list@).contains(a@),
        },
{
    let n = list.len();
    for i in 0..n
        invariant
            n == list@.len(),
            forall|j: int| 0 <= j < i ==> list@[j]@ != a@,
    {
        if list[i].same_as(a) {
            return Some(i);
        }
    }
    proof {
        if addr_views(list@).contains(a@) {
            let k = choose|k: int| 0 <= k < addr_views(list@).len() && addr_views(list@)[k] == a@;
            assert(list@[k]@ == a@);
        }
    }
    None
}

/// A copy of every address of `list`, in the same order.
pub fn copy_list(list: &Vec<Address>) -> (r: Vec<Address>)
    ensures
        addr_views(r@) == addr_views(list@),
{
    let mut r: Vec<Address> = Vec::new();
    let n = list.len();
    for i in 0..n
        invariant
            n == list@.len(),
            r@.len() == i,
            forall|j: int| 0 <= j < i ==> (#[trigger] r@[j])@ == list@[j]@,
    {
        r.push(list[i].duplicate());
    }
    assert(addr_views(r@) =~= addr_views(list@));
    r
}

/// Whether no address occurs twice in `list`.
pub fn has_no_duplicates(list: &Vec<Address>) -> (r: bool)
    ensures
        r == addr_views(list@).no_duplicates(),
{
    let n = list.len();
    for j in 0..n
        invariant
            n == list@.len(),
            forall|x: int, y: int| 0 <= x < y < j ==> list@[x]@ != list@[y]@,
    {
        match position_of(list, &list[j]) {
            Some(k) => {
                if k != j {
                    assert(addr_views(list@)[k as int] == addr_views(list@)[j as int]);
                    return false;
                }
            },
            None => {
                assert(addr_views(list@)[j as int] == list@[j as int]@);
            },
        }
    }
    assert forall|x: int, y: int| 0 <= x < addr_views(list@).len() && 0 <= y < addr_views(list@).len() && x != y
        implies addr_views(list@)[x] != addr_views(list@)[y] by {
        if x < y {
            assert(list@[x]@ != list@[y]@);
        } else {
            assert(list@[y]@ != list@[x]@);
        }
    }
    true
}

} // verus!
