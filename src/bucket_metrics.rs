use vstd::prelude::*;
use crate::bucket::{Bucket, copy_strings};
use crate::dimension::{MetricDescriptor, parse_dimensions, parsed, scan};

verus! {

/// The inventory as mathematics: bucket names in order of discovery, each
/// with its storage classes in order of discovery.
pub type InventoryView = Seq<(Seq<char>, Seq<Seq<char>>)>;

/// The first position at or after `i` whose bucket is `name`, or -1.
pub open spec fn index_from(inv: InventoryView, name: Seq<char>, i: int) -> int
    decreases inv.len() - i,
{
    if i < 0 || i >= inv.len() {
        -1
    } else if inv[i].0 == name {
        i
    } else {
        index_from(inv, name, i + 1)
    }
}

pub open spec fn index_of(inv: InventoryView, name: Seq<char>) -> int {
    index_from(inv, name, 0)
}

/// Records that `name` exists with storage class `class`.
pub open spec fn add_class(inv: InventoryView, name: Seq<char>, class: Seq<char>) -> InventoryView {
    let i = index_of(inv, name);
    if i < 0 {
        inv.push((name, seq![class]))
    } else if inv[i].1.contains(class) {
        inv
    } else {
        inv.update(i, (name, inv[i].1.push(class)))
    }
}

/// The inventory that a run of descriptors describes.
pub open spec fn inventory_of(ms: Seq<MetricDescriptor>) -> InventoryView
    decreases ms.len(),
{
    if ms.len() == 0 {
        Seq::empty()
    } else {
        let prev = inventory_of(ms.drop_last());
        match parsed(ms.last()) {
            None => prev,
            Some((b, c)) => add_class(prev, b, c),
        }
    }
}

/// Bucket names are distinct, and so are the classes of each bucket.
pub open spec fn inventory_wf(inv: InventoryView) -> bool {
    &&& forall|i: int, j: int| 0 <= i < j < inv.len() ==> inv[i].0 != inv[j].0
    &&& forall|i: int, j: int, k: int|
        0 <= i < inv.len() && 0 <= j < k < inv[i].1.len() ==> inv[i].1[j] != inv[i].1[k]
}

pub open spec fn strings_view(v: Seq<String>) -> Seq<Seq<char>> {
    v.map_values(|s: String| s@)
}

/// Each bucket name seen in the descriptors with the storage classes seen
/// for it, both in order of first sight.
#[derive(Debug, PartialEq, Eq)]
pub struct BucketMetrics(pub Vec<(String, Vec<String>)>);

impl View for BucketMetrics {
    type V = InventoryView;

    open spec fn view(&self) -> InventoryView {
        self.0@.map_values(|e: (String, Vec<String>)| (e.0@, strings_view(e.1@)))
    }
}

proof fn lemma_index_from_shift(inv: InventoryView, name: Seq<char>, i: int)
    requires
        0 <= i <= inv.len(),
        forall|k: int| 0 <= k < i ==> inv[k].0 != name,
    ensures
        index_from(inv, name, 0) == index_from(inv, name, i),
    decreases i,
{
    if i > 0 {
        lemma_index_from_shift(inv, name, i - 1);
    }
}

proof fn lemma_index_from_range(inv: InventoryView, name: Seq<char>, i: int)
    requires
        0 <= i,
    ensures
        index_from(inv, name, i) == -1 || (i <= index_from(inv, name, i) < inv.len()
            && inv[index_from(inv, name, i)].0 == name),
        index_from(inv, name, i) == -1 ==> forall|k: int| i <= k < inv.len() ==> inv[k].0 != name,
    decreases inv.len() - i,
{
    if i < inv.len() && inv[i].0 != name {
        lemma_index_from_range(inv, name, i + 1);
    }
}

proof fn lemma_index_of(inv: InventoryView, name: Seq<char>)
    ensures
        index_of(inv, name) == -1 || (0 <= index_of(inv, name) < inv.len()
            && inv[index_of(inv, name)].0 == name),
        index_of(inv, name) == -1 ==> forall|k: int| 0 <= k < inv.len() ==> inv[k].0 != name,
{
    lemma_index_from_range(inv, name, 0);
}

/// Adding a class keeps names and classes distinct.
proof fn lemma_add_class_wf(inv: InventoryView, name: Seq<char>, class: Seq<char>)
    requires
        inventory_wf(inv),
    ensures
        inventory_wf(add_class(inv, name, class)),
{
    lemma_index_of(inv, name);
    let r = add_class(inv, name, class);
    let i = index_of(inv, name);
    if i >= 0 && !inv[i].1.contains(class) {
        assert forall|a: int, j: int, k: int|
            0 <= a < r.len() && 0 <= j < k < r[a].1.len() implies r[a].1[j] != r[a].1[k] by {
            if a == i && k == inv[i].1.len() {
                assert(r[a].1[j] == inv[i].1[j]);
            }
        }
    }
}

/// The inventory built from any descriptors has distinct names and classes.
pub proof fn lemma_inventory_wf(ms: Seq<MetricDescriptor>)
    ensures
        inventory_wf(inventory_of(ms)),
    decreases ms.len(),
{
    if ms.len() > 0 {
        lemma_inventory_wf(ms.drop_last());
        match parsed(ms.last()) {
            None => {},
            Some((b, c)) => lemma_add_class_wf(inventory_of(ms.drop_last()), b, c),
        }
    }
}

/// A descriptor that names no bucket is skipped: the inventory is what the
/// descriptors before it gave, and the same descriptors always give the
/// same inventory.
pub proof fn lemma_unnamed_descriptor_skipped(ms: Seq<MetricDescriptor>, m: MetricDescriptor)
    requires
        m.dimensions is None || scan(m.dimensions->Some_0@).bucket is None,
    ensures
        parsed(m) is None,
        inventory_of(ms.push(m)) == inventory_of(ms),
{
    assert(ms.push(m).drop_last() =~= ms);
}

/// Whether `v` holds a string equal to `s`.
fn contains_string(v: &Vec<String>, s: &String) -> (r: bool)
    ensures
        r == strings_view(v@).contains(s@),
{
    let mut i: usize = 0;
    while i < v.len()
        invariant
            0 <= i <= v@.len(),
            forall|k: int| 0 <= k < i ==> v@[k]@ != s@,
        decreases v@.len() - i,
    {
        if v[i] == *s {
            assert(strings_view(v@)[i as int] == s@);
            return true;
        }
        i = i + 1;
    }
    proof {
        if strings_view(v@).contains(s@) {
            let k = choose|k: int| 0 <= k < strings_view(v@).len() && strings_view(v@)[k] == s@;
            assert(v@[k]@ == s@);
        }
    }
    false
}

impl BucketMetrics {
    pub open spec fn wf(&self) -> bool {
        inventory_wf(self@)
    }

    /// Where `name` stands in the inventory.
    fn position(&self, name: &String) -> (r: Option<usize>)
        ensures
            match r {
                None => index_of(self@, name@) == -1,
                Some(i) => index_of(self@, name@) == i as int,
            },
    {
        let mut i: usize = 0;
        while i < self.0.len()
            invariant
                0 <= i <= self.0@.len(),
                forall|k: int| 0 <= k < i ==> self@[k].0 != name@,
            decreases self.0@.len() - i,
        {
            proof {
                lemma_index_from_shift(self@, name@, i as int);
            }
            if self.0[i].0 == *name {
                return Some(i);
            }
            i = i + 1;
        }
        proof {
            lemma_index_from_shift(self@, name@, i as int);
        }
        None
    }

    /// Records that bucket `name` exists with storage class `class`.
    fn add(&mut self, name: String, class: String)
        ensures
            final(self)@ == add_class(old(self)@, name@, class@),
    {
        proof {
            lemma_index_of(self@, name@);
        }
        match self.position(&name) {
            None => {
                let mut classes: Vec<String> = Vec::new();
                classes.push(class);
                self.0.push((name, classes));
                proof {
                    assert(strings_view(classes@) =~= seq![class@]);
                    assert(self@ =~= add_class(old(self)@, name@, class@));
                }
            },
            Some(i) => {
                if !contains_string(&self.0[i].1, &class) {
                    let ghost before = self@;
                    let (n, mut classes) = self.0.remove(i);
                    let ghost cs = classes@;
                    classes.push(class);
                    assert(strings_view(classes@) =~= strings_view(cs).push(class@));
                    self.0.insert(i, (n, classes));
                    assert(self@ =~= add_class(before, name@, class@));
                }
            },
        }
    }

    /// Groups descriptors by bucket name. Descriptors that name no bucket
    /// are skipped; a bucket seen without a storage type gets the empty class.
    pub fn from_metrics(metrics: &Vec<MetricDescriptor>) -> (r: BucketMetrics)
        ensures
            r@ == inventory_of(metrics@),
            r.wf(),
    {
        let mut r = BucketMetrics(Vec::new());
        let mut i: usize = 0;
        assert(r@ =~= inventory_of(metrics@.subrange(0, 0)));
        while i < metrics.len()
            invariant
                0 <= i <= metrics@.len(),
                r@ == inventory_of(metrics@.subrange(0, i as int)),
            decreases metrics@.len() - i,
        {
            assert(metrics@.subrange(0, i + 1).drop_last() =~= metrics@.subrange(0, i as int));
            match parse_dimensions(&metrics[i]) {
                Some((b, c)) => r.add(b, c),
                None => {},
            }
            i = i + 1;
        }
        assert(metrics@.subrange(0, metrics@.len() as int) =~= metrics@);
        proof {
            lemma_inventory_wf(metrics@);
        }
        r
    }

    /// The bucket names, in order of discovery.
    pub fn bucket_names(&self) -> (r: Vec<String>)
        ensures
            strings_view(r@) == self@.map_values(|e: (Seq<char>, Seq<Seq<char>>)| e.0),
    {
        let mut r: Vec<String> = Vec::new();
        let mut i: usize = 0;
        while i < self.0.len()
            invariant
                0 <= i <= self.0@.len(),
                strings_view(r@) =~= self@.subrange(0, i as int).map_values(
                    |e: (Seq<char>, Seq<Seq<char>>)| e.0,
                ),
            decreases self.0@.len() - i,
        {
            let ghost prev = r@;
            r.push(self.0[i].0.clone());
            assert(strings_view(r@) =~= strings_view(prev).push(self@[i as int].0));
            assert(self@.subrange(0, i + 1) =~= self@.subrange(0, i as int).push(self@[i as int]));
            i = i + 1;
        }
        assert(self@.subrange(0, i as int) =~= self@);
        r
    }

    /// The storage classes recorded for `bucket`, which must be present.
    pub fn storage_types(&self, bucket: &str) -> (r: &Vec<String>)
        requires
            index_of(self@, bucket@) >= 0,
        ensures
            strings_view(r@) == self@[index_of(self@, bucket@)].1,
    {
        let name: String = bucket.to_owned();
        proof {
            lemma_index_of(self@, name@);
        }
        match self.position(&name) {
            Some(i) => &self.0[i].1,
            None => &self.0[0].1,
        }
    }

    /// One bucket per inventory entry, in order of discovery, with the
    /// storage classes recorded for it and no region.
    pub fn buckets(&self) -> (r: Vec<Bucket>)
        ensures
            r@.len() == self@.len(),
            forall|i: int|
                #![trigger r@[i]]
                0 <= i < r@.len() ==> r@[i].name@ == self@[i].0 && r@[i].region is None
                    && r@[i].storage_types is Some && strings_view(r@[i].classes()) == self@[i].1,
    {
        let mut r: Vec<Bucket> = Vec::new();
        let mut i: usize = 0;
        while i < self.0.len()
            invariant
                0 <= i <= self.0@.len(),
                r@.len() == i,
                forall|k: int|
                    #![trigger r@[k]]
                    0 <= k < i ==> r@[k].name@ == self@[k].0 && r@[k].region is None
                        && r@[k].storage_types is Some && strings_view(r@[k].classes())
                        == self@[k].1,
            decreases self.0@.len() - i,
        {
            let b = Bucket {
                name: self.0[i].0.clone(),
                region: None,
                storage_types: Some(copy_strings(&self.0[i].1)),
            };
            r.push(b);
            i = i + 1;
        }
        r
    }
}

} // verus!
