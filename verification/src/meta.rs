//! Metadata of remote objects and the locally persisted table of them.
//!
//! Two objects are the same object exactly when their identifiers agree;
//! the table difference below is what decides which objects still need to
//! be fetched.

use vstd::prelude::*;

use crate::strutil::{last_component, rfind_char, str_eq};

verus! {

/// One remote object: its name, where its content lives, its identifier,
/// its recorded checksum and its size.
#[derive(Debug, Clone)]
pub struct Meta {
    /// Object name; may contain path separators.
    pub name: String,
    /// URL of the object's content.
    pub media_link: String,
    /// Unique identifier of the object.
    pub id: String,
    /// Base64-encoded MD5 digest of the content.
    pub md5_hash: String,
    /// Content size in bytes.
    pub size: u32,
}

impl Meta {
    /// The bare filename of the object: its name's final path component.
    pub fn name(&self) -> (r: String)
        ensures
            r@ == last_component(self.name@),
    {
        let len = self.name.as_str().unicode_len();
        match rfind_char(self.name.as_str(), '/') {
            Some(p) => {
                let tail = self.name.as_str().substring_char(p + 1, len);
                tail.to_owned()
            },
            None => {
                proof {
                    assert(self.name@.skip(0) =~= self.name@);
                }
                self.name.clone()
            },
        }
    }
}

impl PartialEq for Meta {
    /// Two records describe the same object exactly when their
    /// identifiers agree.
    fn eq(&self, other: &Meta) -> bool {
        str_eq(self.id.as_str(), other.id.as_str())
    }
}

impl Eq for Meta {

}

impl vstd::std_specs::cmp::PartialEqSpecImpl for Meta {
    open spec fn obeys_eq_spec() -> bool {
        true
    }

    open spec fn eq_spec(&self, other: &Meta) -> bool {
        self.id@ == other.id@
    }
}

/// Whether some record of `items` carries the identifier `id`.
pub open spec fn contains_id(items: Seq<Meta>, id: Seq<char>) -> bool {
    exists|i: int| 0 <= i < items.len() && #[trigger] items[i].id@ == id
}

/// The records of `items` whose identifier no record of `rhs` carries, in
/// order.
pub open spec fn sub_spec(items: Seq<Meta>, rhs: Seq<Meta>) -> Seq<Meta>
    decreases items.len(),
{
    if items.len() == 0 {
        Seq::<Meta>::empty()
    } else if contains_id(rhs, items[0].id@) {
        sub_spec(items.drop_first(), rhs)
    } else {
        seq![items[0]] + sub_spec(items.drop_first(), rhs)
    }
}

/// Whether some record of `items` carries the identifier of `id`.
fn has_id(items: &Vec<Meta>, id: &str) -> (r: bool)
    ensures
        r == contains_id(items@, id@),
{
    let mut i: usize = 0;
    while i < items.len()
        invariant
            i <= items@.len(),
            forall|k: int| 0 <= k < i ==> #[trigger] items@[k].id@ != id@,
        decreases items@.len() - i,
    {
        if str_eq(items[i].id.as_str(), id) {
            return true;
        }
        i = i + 1;
    }
    proof {
        if contains_id(items@, id@) {
            let k = choose|k: int| 0 <= k < items@.len() && items@[k].id@ == id@;
            assert(items@[k].id@ != id@);
        }
    }
    false
}

/// The locally persisted table of object records, stamped with the time
/// it was built.
pub struct MetaTable {
    items: Vec<Meta>,
    update_at: String,
}

/// Relies on chrono: `Local::now` reads the clock and `to_rfc3339` renders
/// it; nothing is assumed of the result beyond being a string.
#[verifier::external_body]
fn now_rfc3339() -> String {
    chrono::offset::Local::now().to_rfc3339()
}

impl Default for MetaTable {
    /// An empty table stamped with the current time: the cold-start state
    /// used when no table could be loaded.
    fn default() -> (r: MetaTable)
        ensures
            r@ == Seq::<Meta>::empty(),
    {
        let r = MetaTable { items: Vec::new(), update_at: now_rfc3339() };
        proof {
            assert(r@ =~= Seq::<Meta>::empty());
        }
        r
    }
}

impl View for MetaTable {
    type V = Seq<Meta>;

    closed spec fn view(&self) -> Seq<Meta> {
        self.items@
    }
}

impl MetaTable {
    /// The timestamp recorded when the table was built.
    pub closed spec fn spec_update_at(&self) -> Seq<char> {
        self.update_at@
    }

    /// Build a table from a list of records, stamped with the current
    /// time.
    pub fn from_items(items: Vec<Meta>) -> (r: MetaTable)
        ensures
            r@ == items@,
    {
        MetaTable { items, update_at: now_rfc3339() }
    }

    /// The recorded objects, in order.
    pub fn items(&self) -> (r: &Vec<Meta>)
        ensures
            r@ == self@,
    {
        &self.items
    }

    /// The recorded timestamp.
    pub fn update_at(&self) -> (r: &String)
        ensures
            r@ == self.spec_update_at(),
    {
        &self.update_at
    }

    /// The table difference: every record of `self` that `rhs` does not
    /// know, by identifier — the objects that still need fetching.
    pub fn sub(self, rhs: MetaTable) -> (r: Vec<Meta>)
        ensures
            r@ == sub_spec(self@, rhs@),
    {
        let MetaTable { items, update_at: _ } = self;
        let mut items = items;
        let mut r: Vec<Meta> = Vec::new();
        let ghost orig = items@;
        proof {
            assert(r@ + sub_spec(orig, rhs@) =~= sub_spec(orig, rhs@));
        }
        while items.len() > 0
            invariant
                sub_spec(orig, rhs@) == r@ + sub_spec(items@, rhs@),
            decreases items@.len(),
        {
            let ghost cur = items@;
            let m = items.remove(0);
            proof {
                assert(items@ =~= cur.drop_first());
            }
            if !has_id(rhs.items(), m.id.as_str()) {
                proof {
                    assert(r@.push(m) + sub_spec(items@, rhs@) =~= r@ + (seq![m] + sub_spec(
                        items@,
                        rhs@,
                    )));
                }
                r.push(m);
            }
        }
        proof {
            assert(r@ + sub_spec(items@, rhs@) =~= r@);
        }
        r
    }
}

} // verus!
