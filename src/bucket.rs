use vstd::prelude::*;

verus! {

/// One bucket to size: its name and the storage classes seen for it.
#[derive(Debug)]
pub struct Bucket {
    pub name: String,
    pub region: Option<String>,
    pub storage_types: Option<Vec<String>>,
}

impl Bucket {
    /// The storage classes to query; none where they are unknown.
    pub open spec fn classes(&self) -> Seq<String> {
        match self.storage_types {
            Some(v) => v@,
            None => Seq::empty(),
        }
    }
}

/// A copy of a list of strings.
pub(crate) fn copy_strings(v: &Vec<String>) -> (r: Vec<String>)
    ensures
        r@ == v@,
{
    let mut r: Vec<String> = Vec::new();
    let mut i: usize = 0;
    while i < v.len()
        invariant
            0 <= i <= v@.len(),
            r@ =~= v@.subrange(0, i as int),
        decreases v@.len() - i,
    {
        r.push(v[i].clone());
        i = i + 1;
    }
    assert(r@ =~= v@);
    r
}

} // verus!
