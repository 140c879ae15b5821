//! Functional dependencies among the columns of a plan node's output.
use vstd::prelude::*;
use crate::vec_copy::copy_vec;

verus! {

/// The columns marked `from` determine the columns marked `to`; each is a
/// bit set over the node's columns.
#[derive(Clone, Debug)]
pub struct FunctionalDependency {
    pub from: Vec<bool>,
    pub to: Vec<bool>,
}

/// The functional dependencies that hold on a node's output of
/// `column_count` columns.
#[derive(Clone, Debug)]
pub struct FunctionalDependencySet {
    pub column_count: usize,
    pub strict: Vec<FunctionalDependency>,
}

/// A dependency, as a pair of bit sets.
pub type DependencyView = (Seq<bool>, Seq<bool>);

impl FunctionalDependency {
    pub open spec fn view(&self) -> DependencyView {
        (self.from@, self.to@)
    }

    /// A copy of the dependency.
    pub fn duplicate(&self) -> (copy: FunctionalDependency)
        ensures
            copy.view() == self.view(),
    {
        FunctionalDependency { from: copy_vec(&self.from), to: copy_vec(&self.to) }
    }
}

impl FunctionalDependencySet {
    pub open spec fn view(&self) -> (nat, Seq<DependencyView>) {
        (self.column_count as nat, self.strict@.map_values(|fd: FunctionalDependency| fd.view()))
    }

    /// No dependency over `column_count` columns.
    pub fn new(column_count: usize) -> (fds: FunctionalDependencySet)
        ensures
            fds.view() == (column_count as nat, Seq::<DependencyView>::empty()),
    {
        let fds = FunctionalDependencySet { column_count, strict: Vec::new() };
        proof {
            assert(fds.view().1 =~= Seq::<DependencyView>::empty());
        }
        fds
    }

    /// The columns `key` determine every column.
    pub fn with_key(column_count: usize, key: &Vec<usize>) -> (fds: FunctionalDependencySet)
        requires
            forall|i: int| 0 <= i < key@.len() ==> key@[i] < column_count,
        ensures
            fds.view() == (column_count as nat, key_dependencies(column_count as nat, key@)),
    {
        let mut fds = FunctionalDependencySet::new(column_count);
        if column_count > 0 {
            let from = bits_of(column_count, key);
            let to = all_bits(column_count);
            fds.strict.push(FunctionalDependency { from, to });
            proof {
                assert(fds.view().1 =~= key_dependencies(column_count as nat, key@));
            }
        }
        fds
    }

    /// A copy of the set.
    pub fn duplicate(&self) -> (copy: FunctionalDependencySet)
        ensures
            copy.view() == self.view(),
    {
        let mut strict: Vec<FunctionalDependency> = Vec::new();
        let mut i: usize = 0;
        while i < self.strict.len()
            invariant
                i <= self.strict@.len(),
                strict@.map_values(|fd: FunctionalDependency| fd.view())
                    =~= self.strict@.take(i as int).map_values(|fd: FunctionalDependency| fd.view()),
            decreases self.strict@.len() - i,
        {
            let fd = self.strict[i].duplicate();
            proof {
                assert(self.strict@.take(i + 1) == self.strict@.take(i as int).push(self.strict@[i as int]));
            }
            let ghost before = strict@;
            strict.push(fd);
            proof {
                let f = |fd: FunctionalDependency| fd.view();
                assert(strict@ == before.push(fd));
                assert(strict@.map_values(f) =~= before.map_values(f).push(f(fd)));
                assert(self.strict@.take(i + 1).map_values(f)
                    =~= self.strict@.take(i as int).map_values(f).push(f(self.strict@[i as int])));
            }
            i = i + 1;
        }
        proof {
            assert(self.strict@.take(self.strict@.len() as int) == self.strict@);
        }
        FunctionalDependencySet { column_count: self.column_count, strict }
    }
}

/// The dependencies that a key over `n` columns gives: the key's columns
/// determine all columns. With no column there is nothing to determine.
pub open spec fn key_dependencies(n: nat, key: Seq<usize>) -> Seq<DependencyView> {
    if n == 0 {
        Seq::empty()
    } else {
        seq![(Seq::new(n, |i: int| key.contains(i as usize)), Seq::new(n, |i: int| true))]
    }
}

/// The bit set over `n` columns that marks the columns in `cols`.
fn bits_of(n: usize, cols: &Vec<usize>) -> (bits: Vec<bool>)
    requires
        forall|i: int| 0 <= i < cols@.len() ==> cols@[i] < n,
    ensures
        bits@ == Seq::new(n as nat, |i: int| cols@.contains(i as usize)),
{
    let mut bits: Vec<bool> = Vec::new();
    let mut k: usize = 0;
    while k < n
        invariant
            k <= n,
            bits@.len() == k,
            forall|i: int| 0 <= i < k ==> !bits@[i],
        decreases n - k,
    {
        bits.push(false);
        k = k + 1;
    }
    let mut j: usize = 0;
    while j < cols.len()
        invariant
            j <= cols@.len(),
            bits@.len() == n,
            forall|i: int| 0 <= i < cols@.len() ==> cols@[i] < n,
            forall|i: int| 0 <= i < n ==> bits@[i] == cols@.take(j as int).contains(i as usize),
        decreases cols@.len() - j,
    {
        let c = cols[j];
        bits.set(c, true);
        proof {
            assert forall|i: int| 0 <= i < n implies bits@[i] == cols@.take(j + 1).contains(i as usize) by {
                let t = cols@.take(j + 1);
                assert(t == cols@.take(j as int).push(c));
                if i == c as int {
                    assert(t[j as int] == c);
                } else {
                    if t.contains(i as usize) {
                        let w = choose|w: int| 0 <= w < t.len() && t[w] == i as usize;
                        assert(cols@.take(j as int)[w] == i as usize);
                    }
                    if cols@.take(j as int).contains(i as usize) {
                        let w = choose|w: int| 0 <= w < j && cols@.take(j as int)[w] == i as usize;
                        assert(t[w] == i as usize);
                    }
                }
            }
        }
        j = j + 1;
    }
    proof {
        assert(cols@.take(cols@.len() as int) == cols@);
        assert(bits@ =~= Seq::new(n as nat, |i: int| cols@.contains(i as usize)));
    }
    bits
}

/// The bit set over `n` columns that marks every column.
fn all_bits(n: usize) -> (bits: Vec<bool>)
    ensures
        bits@ == Seq::new(n as nat, |i: int| true),
{
    let mut bits: Vec<bool> = Vec::new();
    let mut k: usize = 0;
    while k < n
        invariant
            k <= n,
            bits@.len() == k,
            forall|i: int| 0 <= i < k ==> bits@[i],
        decreases n - k,
    {
        bits.push(true);
        k = k + 1;
    }
    proof {
        assert(bits@ =~= Seq::new(n as nat, |i: int| true));
    }
    bits
}

} // verus!
