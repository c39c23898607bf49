//! Mods of the game: how they are identified and what they say of themselves.
use vstd::prelude::*;

use crate::numbers::decimal;
use crate::table::{Table, TableKey};
use crate::text::chars_of;
#[allow(unused_imports)]
use crate::numbers::decimal_text;

verus! {

/// What a mod is known by.
#[derive(Debug)]
pub enum ModId {
    /// The number of an item of the workshop.
    Workshop(u32),
    /// The directory of a mod that does not come from the workshop.
    Local(String),
}

#[verifier::ext_equal]
pub enum ModIdModel {
    Workshop(u32),
    Local(Seq<char>),
}

impl View for ModId {
    type V = ModIdModel;

    open spec fn view(&self) -> ModIdModel {
        match self {
            ModId::Workshop(id) => ModIdModel::Workshop(*id),
            ModId::Local(path) => ModIdModel::Local(path@),
        }
    }
}

impl ModIdModel {
    /// How the mod is shown: by its number, or by its directory.
    pub open spec fn text(self) -> Seq<char> {
        match self {
            ModIdModel::Workshop(id) => decimal_text(id as nat),
            ModIdModel::Local(path) => path,
        }
    }
}

/// Whether a character comes before another one in the order of paths, in which
/// the parts of a path are compared one after the other: a separator comes before
/// all else.
pub open spec fn path_less(a: char, b: char) -> bool {
    b != '/' && (a == '/' || a < b)
}

/// Whether a path comes before another one.
pub open spec fn path_before(a: Seq<char>, b: Seq<char>) -> bool
    decreases a.len(),
{
    if b.len() == 0 {
        false
    } else if a.len() == 0 {
        true
    } else if a[0] != b[0] {
        path_less(a[0], b[0])
    } else {
        path_before(a.skip(1), b.skip(1))
    }
}

pub proof fn path_order_is_total(a: Seq<char>, b: Seq<char>, c: Seq<char>)
    ensures
        !path_before(a, a),
        path_before(a, b) && path_before(b, c) ==> path_before(a, c),
        a != b ==> path_before(a, b) || path_before(b, a),
    decreases a.len() + b.len() + c.len(),
{
    if a.len() > 0 {
        if b.len() > 0 && c.len() > 0 {
            path_order_is_total(a.skip(1), b.skip(1), c.skip(1));
            if a[0] == b[0] && a.skip(1) == b.skip(1) {
                assert(a =~= seq![a[0]] + a.skip(1));
                assert(b =~= seq![b[0]] + b.skip(1));
            }
        } else if b.len() > 0 {
            path_order_is_total(a.skip(1), b.skip(1), c);
            if a[0] == b[0] && a.skip(1) == b.skip(1) {
                assert(a =~= seq![a[0]] + a.skip(1));
                assert(b =~= seq![b[0]] + b.skip(1));
            }
        } else {
            path_order_is_total(a.skip(1), b, c);
        }
    } else if b.len() == 0 {
        assert(a =~= b);
    }
}

fn chars_path_before(a: &[char], b: &[char]) -> (r: bool)
    ensures
        r == path_before(a@, b@),
{
    let mut i: usize = 0;
    assert(a@.skip(0) =~= a@ && b@.skip(0) =~= b@);
    loop
        invariant
            i <= a@.len(),
            i <= b@.len(),
            path_before(a@, b@) == path_before(a@.skip(i as int), b@.skip(i as int)),
        decreases a@.len() - i,
    {
        if i >= b.len() {
            return false;
        }
        if i >= a.len() {
            return true;
        }
        if a[i] != b[i] {
            return b[i] != '/' && (a[i] == '/' || a[i] < b[i]);
        }
        assert(a@.skip(i as int).skip(1) =~= a@.skip(i + 1));
        assert(b@.skip(i as int).skip(1) =~= b@.skip(i + 1));
        i += 1;
    }
}

/// Mods of the workshop come first, by their numbers, then local ones, by their
/// directories.
impl TableKey for ModId {
    type Model = ModIdModel;

    open spec fn model(&self) -> ModIdModel {
        self@
    }

    open spec fn before(a: ModIdModel, b: ModIdModel) -> bool {
        match (a, b) {
            (ModIdModel::Workshop(x), ModIdModel::Workshop(y)) => x < y,
            (ModIdModel::Workshop(_), ModIdModel::Local(_)) => true,
            (ModIdModel::Local(_), ModIdModel::Workshop(_)) => false,
            (ModIdModel::Local(x), ModIdModel::Local(y)) => path_before(x, y),
        }
    }

    proof fn order_is_total(a: ModIdModel, b: ModIdModel, c: ModIdModel) {
        let text = |m: ModIdModel|
            match m {
                ModIdModel::Local(path) => path,
                _ => Seq::empty(),
            };
        path_order_is_total(text(a), text(b), text(c));
    }

    fn comes_before(&self, other: &Self) -> (r: bool) {
        match (self, other) {
            (ModId::Workshop(x), ModId::Workshop(y)) => *x < *y,
            (ModId::Workshop(_), ModId::Local(_)) => true,
            (ModId::Local(_), ModId::Workshop(_)) => false,
            (ModId::Local(x), ModId::Local(y)) => {
                let a = chars_of(x.as_str());
                let b = chars_of(y.as_str());
                chars_path_before(a.as_slice(), b.as_slice())
            },
        }
    }

    fn copy_key(&self) -> (r: Self) {
        match self {
            ModId::Workshop(id) => ModId::Workshop(*id),
            ModId::Local(path) => ModId::Local(path.clone()),
        }
    }
}

impl ModId {
    /// The number of a mod of the workshop.
    pub fn maybe_workshop(&self) -> (r: Option<u32>)
        ensures
            r == match self@ {
                ModIdModel::Workshop(id) => Some(id),
                ModIdModel::Local(_) => None,
            },
    {
        match self {
            ModId::Workshop(id) => Some(*id),
            ModId::Local(_) => None,
        }
    }

    /// The directory of a local mod.
    pub fn maybe_local(&self) -> (r: Option<&str>)
        ensures
            match r {
                Some(path) => self@ == ModIdModel::Local(path@),
                None => self@ is Workshop,
            },
    {
        match self {
            ModId::Workshop(_) => None,
            ModId::Local(path) => Some(path.as_str()),
        }
    }

    /// How the mod is shown.
    pub fn text(&self) -> (r: String)
        ensures
            r@ == self@.text(),
    {
        match self {
            ModId::Workshop(id) => decimal(*id as u64),
            ModId::Local(path) => path.clone(),
        }
    }

    /// Whether both stand for the same mod.
    pub fn is(&self, other: &ModId) -> (r: bool)
        ensures
            r == (self@ == other@),
    {
        match (self, other) {
            (ModId::Workshop(x), ModId::Workshop(y)) => *x == *y,
            (ModId::Local(x), ModId::Local(y)) => crate::text::same_text(x.as_str(), y.as_str()),
            _ => false,
        }
    }
}

/// What a mod's own description file says.
#[derive(Debug)]
pub struct ModMetadata {
    pub published_file_id: u32,
    pub title: String,
    pub description: String,
    /// The name by which the game knows the mod.
    pub dlc_name: String,
}

/// What a mod's configuration says of other mods.
pub struct ModCompatibility {
    /// The mods that it needs.
    pub required: Table<String, ()>,
    /// The mods with which it cannot run.
    pub incompatible: Table<String, ()>,
    /// The requirements of others that it stands in for.
    pub ignore_required: Table<String, ()>,
}

/// What a mod's configuration says of other mods, by their names.
#[verifier::ext_equal]
pub struct CompatibilityModel {
    pub required: Set<Seq<char>>,
    pub incompatible: Set<Seq<char>>,
    pub ignore_required: Set<Seq<char>>,
}

impl View for ModCompatibility {
    type V = CompatibilityModel;

    open spec fn view(&self) -> CompatibilityModel {
        CompatibilityModel {
            required: self.required@.dom(),
            incompatible: self.incompatible@.dom(),
            ignore_required: self.ignore_required@.dom(),
        }
    }
}

impl CompatibilityModel {
    /// What both say together.
    pub open spec fn with(self, other: CompatibilityModel) -> CompatibilityModel {
        CompatibilityModel {
            required: self.required.union(other.required),
            incompatible: self.incompatible.union(other.incompatible),
            ignore_required: self.ignore_required.union(other.ignore_required),
        }
    }
}

fn put_in(names: &mut Table<String, ()>, more: &Table<String, ()>)
    ensures
        final(names)@.dom() == old(names)@.dom().union(more@.dom()),
{
    let n = more.len();
    let ghost rows = more.rows();
    let ghost start = names@;
    let mut i: usize = 0;
    while i < n
        invariant
            0 <= i <= n,
            n == rows.len(),
            rows == more.rows(),
            forall|k: Seq<char>|
                #[trigger] names@.dom().contains(k) <==> start.dom().contains(k) || exists|j: int|
                    0 <= j < i && (#[trigger] rows[j]).0 == k,
        decreases n - i,
    {
        let name = more.key_at(i).clone();
        let ghost text = name@;
        let ghost before = names@;
        names.insert(name, ());
        assert(rows[i as int].0 == text);
        assert forall|k: Seq<char>| #[trigger] names@.dom().contains(k) <==> start.dom().contains(k)
            || exists|j: int| 0 <= j < i + 1 && (#[trigger] rows[j]).0 == k by {
            assert(names@.dom().contains(k) <==> before.dom().contains(k) || k == text);
            if exists|j: int| 0 <= j < i && (#[trigger] rows[j]).0 == k {
                let j = choose|j: int| 0 <= j < i && (#[trigger] rows[j]).0 == k;
                assert(rows[j].0 == k);
            }
        }
        i += 1;
    }
    assert(names@.dom() =~= start.dom().union(more@.dom()));
}

impl ModCompatibility {
    pub fn new() -> (r: Self)
        ensures
            r@ == (CompatibilityModel {
                required: Set::empty(),
                incompatible: Set::empty(),
                ignore_required: Set::empty(),
            }),
    {
        let r = ModCompatibility {
            required: Table::new(),
            incompatible: Table::new(),
            ignore_required: Table::new(),
        };
        assert(r@.required =~= Set::empty());
        assert(r@.incompatible =~= Set::empty());
        assert(r@.ignore_required =~= Set::empty());
        r
    }

    /// Adds what another configuration of the mod says.
    pub fn extend_with(&mut self, other: &ModCompatibility)
        ensures
            final(self)@ == old(self)@.with(other@),
    {
        put_in(&mut self.required, &other.required);
        put_in(&mut self.incompatible, &other.incompatible);
        put_in(&mut self.ignore_required, &other.ignore_required);
    }
}

/// Local mods are in the order of their paths, component by component: what lies in a directory
/// comes right behind it, before whatever has a longer name there. Mods of the workshop come first,
/// by their numbers.
pub proof fn mods_are_ordered_by_place(
    front: Seq<char>,
    x: char,
    y: char,
    a: Seq<char>,
    b: Seq<char>,
    m: u32,
    n: u32,
)
    requires
        x != y,
    ensures
        path_before(front.push(x) + a, front.push(y) + b) <==> if x == '/' {
            true
        } else if y == '/' {
            false
        } else {
            x < y
        },
        path_before(front, front.push(x) + a),
        ModId::before(ModIdModel::Workshop(m), ModIdModel::Workshop(n)) <==> m < n,
        ModId::before(ModIdModel::Workshop(m), ModIdModel::Local(front)),
        !ModId::before(ModIdModel::Local(front), ModIdModel::Workshop(m)),
    decreases front.len(),
{
    let p = front.push(x) + a;
    let q = front.push(y) + b;
    if front.len() > 0 {
        let rest = front.skip(1);
        mods_are_ordered_by_place(rest, x, y, a, b, m, n);
        assert(p.skip(1) =~= rest.push(x) + a);
        assert(q.skip(1) =~= rest.push(y) + b);
        assert(p[0] == front[0] && q[0] == front[0]);
    } else {
        assert(p[0] == x && q[0] == y);
    }
}

} // verus!
