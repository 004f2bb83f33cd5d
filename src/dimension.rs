use vstd::prelude::*;

verus! {

/// One (name, value) attribute of a metric series; either half may be absent.
#[derive(Clone, Debug)]
pub struct Dimension {
    pub name: Option<String>,
    pub value: Option<String>,
}

/// A backend record naming one time series by its dimensions.
#[derive(Clone, Debug)]
pub struct MetricDescriptor {
    pub dimensions: Option<Vec<Dimension>>,
}

pub open spec fn bucket_key() -> Seq<char> {
    seq!['B', 'u', 'c', 'k', 'e', 't', 'N', 'a', 'm', 'e']
}

pub open spec fn class_key() -> Seq<char> {
    seq!['S', 't', 'o', 'r', 'a', 'g', 'e', 'T', 'y', 'p', 'e']
}

/// What a scan of the dimensions has seen so far: whether a required
/// dimension came without a value, and the last bucket and class values.
pub struct ScanState {
    pub broken: bool,
    pub bucket: Option<Seq<char>>,
    pub class: Option<Seq<char>>,
}

pub open spec fn scan_step(st: ScanState, d: Dimension) -> ScanState {
    match d.name {
        Some(n) => if n@ == bucket_key() {
            match d.value {
                Some(v) => ScanState { bucket: Some(v@), ..st },
                None => ScanState { broken: true, ..st },
            }
        } else if n@ == class_key() {
            match d.value {
                Some(v) => ScanState { class: Some(v@), ..st },
                None => ScanState { broken: true, ..st },
            }
        } else {
            st
        },
        None => st,
    }
}

pub open spec fn scan(dims: Seq<Dimension>) -> ScanState
    decreases dims.len(),
{
    if dims.len() == 0 {
        ScanState { broken: false, bucket: None, class: None }
    } else {
        scan_step(scan(dims.drop_last()), dims.last())
    }
}

/// The (bucket, storage class) pair that a descriptor names, if any: the
/// class is empty where no storage-type dimension is given.
pub open spec fn parsed(m: MetricDescriptor) -> Option<(Seq<char>, Seq<char>)> {
    match m.dimensions {
        None => None,
        Some(ds) => {
            let st = scan(ds@);
            if st.broken {
                None
            } else {
                match st.bucket {
                    None => None,
                    Some(b) => Some(
                        (
                            b,
                            match st.class {
                                Some(c) => c,
                                None => Seq::empty(),
                            },
                        ),
                    ),
                }
            }
        },
    }
}

/// Reads the bucket name and storage class out of a descriptor's
/// dimensions. A descriptor without dimensions, without a bucket name, or
/// with a bucket-name or storage-type dimension that lacks its value yields
/// `None`; a missing storage type yields the empty class.
pub fn parse_dimensions(m: &MetricDescriptor) -> (r: Option<(String, String)>)
    ensures
        match (r, parsed(*m)) {
            (None, None) => true,
            (Some((b, c)), Some((pb, pc))) => b@ == pb && c@ == pc,
            _ => false,
        },
        (m.dimensions is None || scan(m.dimensions->Some_0@).bucket is None) ==> r is None,
{
    let ds = match &m.dimensions {
        Some(ds) => ds,
        None => return None,
    };
    let bkey: String = "BucketName".to_owned();
    let ckey: String = "StorageType".to_owned();
    proof {
        reveal_strlit("BucketName");
        reveal_strlit("StorageType");
        assert(bkey@ =~= bucket_key());
        assert(ckey@ =~= class_key());
    }
    let mut broken = false;
    let mut bucket: Option<String> = None;
    let mut class: Option<String> = None;
    let mut i: usize = 0;
    while i < ds.len()
        invariant
            0 <= i <= ds@.len(),
            bkey@ == bucket_key(),
            ckey@ == class_key(),
            ({
                let st = scan(ds@.subrange(0, i as int));
                &&& st.broken == broken
                &&& st.bucket == match bucket {
                    Some(s) => Some(s@),
                    None => None::<Seq<char>>,
                }
                &&& st.class == match class {
                    Some(s) => Some(s@),
                    None => None::<Seq<char>>,
                }
            }),
        decreases ds@.len() - i,
    {
        let d = &ds[i];
        proof {
            assert(ds@.subrange(0, i + 1).drop_last() =~= ds@.subrange(0, i as int));
        }
        match &d.name {
            Some(n) => {
                if *n == bkey {
                    match &d.value {
                        Some(v) => bucket = Some(v.clone()),
                        None => broken = true,
                    }
                } else if *n == ckey {
                    match &d.value {
                        Some(v) => class = Some(v.clone()),
                        None => broken = true,
                    }
                }
            },
            None => {},
        }
        i = i + 1;
    }
    proof {
        assert(ds@.subrange(0, ds@.len() as int) =~= ds@);
    }
    if broken {
        return None;
    }
    match bucket {
        None => None,
        Some(b) => {
            let c = match class {
                Some(c) => c,
                None => String::new(),
            };
            Some((b, c))
        },
    }
}

} // verus!
