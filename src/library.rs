use vstd::prelude::*;

use crate::geometry::{bounding_box, is_bounding_box, BoundingBox, Placement, Point};

verus! {

/// A key/value property of a symbol, such as `Reference` or `Value`.
#[derive(Clone, Debug)]
pub struct Property {
    pub key: String,
    pub value: String,
}

/// A pin of a library symbol: its number, its electrical type and its
/// position in the symbol's local frame.
#[derive(Clone, Debug)]
pub struct PinDef {
    pub number: usize,
    pub electrical: String,
    pub at: Point,
}

/// A drawing primitive of a library symbol.
#[derive(Clone, Debug)]
pub enum Graphic {
    Polyline(Vec<Point>),
    Rectangle(Point, Point),
    /// A primitive of a kind that does not take part in the outline.
    Other(String),
}

/// One unit of a library symbol; unit `0` applies to every unit.
#[derive(Clone, Debug)]
pub struct UnitDef {
    pub unit: usize,
    pub pins: Vec<PinDef>,
    pub graphics: Vec<Graphic>,
}

/// A library symbol definition.
#[derive(Clone, Debug)]
pub struct SymbolDef {
    pub name: String,
    /// Power symbols name the nets their pins touch after their `Value`.
    pub power: bool,
    pub units: Vec<UnitDef>,
}

/// One placement of a library symbol on the sheet.
#[derive(Clone, Debug)]
pub struct SymbolInstance {
    pub lib_id: String,
    pub unit: usize,
    pub placement: Placement,
    pub properties: Vec<Property>,
}

/// Every pin position of a definition lies within the coordinate limit.
pub open spec fn def_in_range(def: SymbolDef) -> bool {
    forall|u: int, k: int| 0 <= u < def.units@.len() && 0 <= k < def.units@[u].pins@.len()
        ==> (#[trigger] def.units@[u].pins@[k]).at.in_range()
}

/// A pin as the library index hands it out: its number, its local position
/// and the unit that owns it.
#[derive(Clone, Copy, Debug, PartialEq, Eq, Structural)]
pub struct PinRef {
    pub number: usize,
    pub at: Point,
    pub unit: usize,
}

/// Whether a unit definition applies to a placed unit.
pub open spec fn applies(def_unit: usize, unit: usize) -> bool {
    def_unit == 0 || def_unit == unit
}

/// The pins of one unit, tagged with the unit's number.
pub open spec fn unit_pin_refs(u: UnitDef) -> Seq<PinRef> {
    u.pins@.map_values(|p: PinDef| PinRef { number: p.number, at: p.at, unit: u.unit })
}

/// Every pin of a symbol, unit after unit.
pub open spec fn all_pin_refs(units: Seq<UnitDef>) -> Seq<PinRef>
    decreases units.len(),
{
    if units.len() == 0 {
        Seq::empty()
    } else {
        all_pin_refs(units.drop_last()) + unit_pin_refs(units.last())
    }
}

/// The pin table that a run of pins builds: a later pin with a number
/// replaces an earlier one.
pub open spec fn pin_table(s: Seq<PinRef>) -> Map<usize, PinRef>
    decreases s.len(),
{
    if s.len() == 0 {
        Map::empty()
    } else {
        pin_table(s.drop_last()).insert(s.last().number, s.last())
    }
}

/// `r` lists the pin table of `units`: each pin number once, with the pin
/// that the table holds for it.
pub open spec fn lists_pin_table(r: Seq<PinRef>, units: Seq<UnitDef>) -> bool {
    &&& forall|a: int, b: int| 0 <= a < b < r.len() ==> r[a].number != r[b].number
    &&& forall|n: usize| pin_table(all_pin_refs(units)).contains_key(n)
        <==> exists|k: int| 0 <= k < r.len() && #[trigger] r[k].number == n
    &&& forall|k: int| 0 <= k < r.len() ==> #[trigger] r[k] == pin_table(all_pin_refs(units))[r[k].number]
}

/// A listing of the pin table has one entry per pin number.
pub proof fn lemma_pin_count(r: Seq<PinRef>, units: Seq<UnitDef>)
    requires
        lists_pin_table(r, units),
    ensures
        r.len() == pin_table(all_pin_refs(units)).dom().len(),
{
    let nums = r.map_values(|p: PinRef| p.number);
    assert(nums.no_duplicates()) by {
        assert forall|a: int, b: int| 0 <= a < nums.len() && 0 <= b < nums.len() && a != b implies nums[a] != nums[b] by {
            if a < b {
                assert(r[a].number != r[b].number);
            } else {
                assert(r[b].number != r[a].number);
            }
        }
    }
    let dom = pin_table(all_pin_refs(units)).dom();
    assert(nums.to_set() =~= dom) by {
        assert forall|n: usize| nums.to_set().contains(n) <==> dom.contains(n) by {
            if nums.to_set().contains(n) {
                let k = choose|k: int| 0 <= k < nums.len() && nums[k] == n;
                assert(r[k].number == n);
            }
            if dom.contains(n) {
                let k = choose|k: int| 0 <= k < r.len() && #[trigger] r[k].number == n;
                assert(nums[k] == n);
            }
        }
    }
    nums.unique_seq_to_set();
}

/// The pins of the units that apply to a placed unit, in order.
pub open spec fn applicable_pins(units: Seq<UnitDef>, unit: usize) -> Seq<PinDef>
    decreases units.len(),
{
    if units.len() == 0 {
        Seq::empty()
    } else if applies(units.last().unit, unit) {
        applicable_pins(units.drop_last(), unit) + units.last().pins@
    } else {
        applicable_pins(units.drop_last(), unit)
    }
}

/// The points of one primitive that take part in the outline.
pub open spec fn graphic_points(g: Graphic) -> Seq<Point> {
    match g {
        Graphic::Polyline(pts) => pts@,
        Graphic::Rectangle(a, b) => seq![a, b],
        Graphic::Other(_) => Seq::empty(),
    }
}

pub open spec fn graphics_points(gs: Seq<Graphic>) -> Seq<Point>
    decreases gs.len(),
{
    if gs.len() == 0 {
        Seq::empty()
    } else {
        graphics_points(gs.drop_last()) + graphic_points(gs.last())
    }
}

/// The outline points of the units that apply to a placed unit.
pub open spec fn outline_points(units: Seq<UnitDef>, unit: usize) -> Seq<Point>
    decreases units.len(),
{
    if units.len() == 0 {
        Seq::empty()
    } else if applies(units.last().unit, unit) {
        outline_points(units.drop_last(), unit) + graphics_points(units.last().graphics@)
    } else {
        outline_points(units.drop_last(), unit)
    }
}

/// The value of the first property with the given key.
pub open spec fn property_of(props: Seq<Property>, key: Seq<char>) -> Option<String>
    decreases props.len(),
{
    if props.len() == 0 {
        None
    } else if props[0].key@ == key {
        Some(props[0].value)
    } else {
        property_of(props.drop_first(), key)
    }
}

/// Looks up the first property with the given key.
pub fn find_property(props: &Vec<Property>, key: &str) -> (r: Option<String>)
    ensures
        r == property_of(props@, key@),
{
    let wanted: String = key.to_owned();
    let mut i: usize = 0;
    assert(props@.subrange(0, props@.len() as int) =~= props@);
    while i < props.len()
        invariant
            i <= props@.len(),
            wanted@ == key@,
            property_of(props@, key@) == property_of(props@.subrange(i as int, props@.len() as int), key@),
        decreases props@.len() - i,
    {
        let ghost rest = props@.subrange(i as int, props@.len() as int);
        assert(rest.drop_first() =~= props@.subrange(i + 1, props@.len() as int));
        if props[i].key == wanted {
            return Some(props[i].value.clone());
        }
        i = i + 1;
    }
    assert(props@.subrange(i as int, props@.len() as int) =~= Seq::<Property>::empty());
    None
}

impl SymbolDef {
    /// The pin table of the symbol: pin number to position and owning unit,
    /// over all units; a later pin with a number replaces an earlier one. The
    /// numbers in the result are distinct.
    pub fn pin_refs(&self) -> (r: Vec<PinRef>)
        ensures
            lists_pin_table(r@, self.units@),
    {
        let mut out: Vec<PinRef> = Vec::new();
        let mut i: usize = 0;
        while i < self.units.len()
            invariant
                i <= self.units@.len(),
                forall|a: int, b: int| 0 <= a < b < out@.len() ==> out@[a].number != out@[b].number,
                forall|n: usize| pin_table(all_pin_refs(self.units@.take(i as int))).contains_key(n)
                    <==> exists|k: int| 0 <= k < out@.len() && #[trigger] out@[k].number == n,
                forall|k: int| 0 <= k < out@.len()
                    ==> #[trigger] out@[k] == pin_table(all_pin_refs(self.units@.take(i as int)))[out@[k].number],
            decreases self.units@.len() - i,
        {
            let unit = &self.units[i];
            let ghost before = all_pin_refs(self.units@.take(i as int));
            let mut j: usize = 0;
            while j < unit.pins.len()
                invariant
                    i < self.units@.len(),
                    *unit == self.units@[i as int],
                    j <= unit.pins@.len(),
                    forall|a: int, b: int| 0 <= a < b < out@.len() ==> out@[a].number != out@[b].number,
                    forall|n: usize| pin_table(before + unit_pin_refs(*unit).take(j as int)).contains_key(n)
                        <==> exists|k: int| 0 <= k < out@.len() && #[trigger] out@[k].number == n,
                    forall|k: int| 0 <= k < out@.len()
                        ==> #[trigger] out@[k] == pin_table(before + unit_pin_refs(*unit).take(j as int))[out@[k].number],
                decreases unit.pins@.len() - j,
            {
                let ghost prev = before + unit_pin_refs(*unit).take(j as int);
                let pin = &unit.pins[j];
                let p = PinRef { number: pin.number, at: pin.at, unit: unit.unit };
                assert(p == unit_pin_refs(*unit)[j as int]);
                let ghost next = before + unit_pin_refs(*unit).take(j + 1);
                assert(next.drop_last() =~= prev);
                assert(next.last() == p);
                let mut k: usize = 0;
                while k < out.len() && out[k].number != p.number
                    invariant
                        k <= out@.len(),
                        forall|m: int| 0 <= m < k ==> out@[m].number != p.number,
                    decreases out@.len() - k,
                {
                    k = k + 1;
                }
                let ghost old_out = out@;
                assert(pin_table(next) == pin_table(prev).insert(p.number, p));
                if k < out.len() {
                    assert(old_out[k as int].number == p.number);
                    out.set(k, p);
                    assert forall|n: usize| pin_table(next).contains_key(n)
                        implies exists|m: int| 0 <= m < out@.len() && #[trigger] out@[m].number == n by {
                        if n != p.number {
                            let m = choose|m: int| 0 <= m < old_out.len() && #[trigger] old_out[m].number == n;
                            assert(m != k);
                            assert(out@[m].number == n);
                        } else {
                            assert(out@[k as int].number == n);
                        }
                    }
                } else {
                    out.push(p);
                    assert forall|n: usize| pin_table(next).contains_key(n)
                        implies exists|m: int| 0 <= m < out@.len() && #[trigger] out@[m].number == n by {
                        if n != p.number {
                            let m = choose|m: int| 0 <= m < old_out.len() && #[trigger] old_out[m].number == n;
                            assert(out@[m].number == n);
                        } else {
                            assert(out@[old_out.len() as int].number == n);
                        }
                    }
                }
                j = j + 1;
            }
            assert(self.units@.take(i + 1).drop_last() =~= self.units@.take(i as int));
            assert(unit_pin_refs(*unit).take(j as int) =~= unit_pin_refs(*unit));
            i = i + 1;
        }
        assert(self.units@.take(i as int) =~= self.units@);
        out
    }
}

/// The extent of a placed symbol's drawing in its local frame.
pub trait Bounds<T> {
    /// `r` is the extent of the units of `lib` that apply to `self`.
    spec fn bounded_by(&self, lib: SymbolDef, r: T) -> bool;

    fn bounds(&self, lib: &SymbolDef) -> (r: T)
        ensures
            self.bounded_by(*lib, r),
    ;
}

/// Collects the outline points of the units of `def` that apply to `unit`.
pub fn outline(def: &SymbolDef, unit: usize) -> (r: Vec<Point>)
    ensures
        r@ == outline_points(def.units@, unit),
{
    let mut pts: Vec<Point> = Vec::new();
    let mut u: usize = 0;
    while u < def.units.len()
        invariant
            u <= def.units@.len(),
            pts@ == outline_points(def.units@.take(u as int), unit),
        decreases def.units@.len() - u,
    {
        let ud = &def.units[u];
        assert(def.units@.take(u + 1).drop_last() =~= def.units@.take(u as int));
        if ud.unit == 0 || ud.unit == unit {
            let ghost done = pts@;
            let mut g: usize = 0;
            assert(ud.graphics@.take(0) =~= Seq::<Graphic>::empty());
            assert(done + graphics_points(ud.graphics@.take(0)) =~= done);
            while g < ud.graphics.len()
                invariant
                    u < def.units@.len(),
                    *ud == def.units@[u as int],
                    g <= ud.graphics@.len(),
                    pts@ == done + graphics_points(ud.graphics@.take(g as int)),
                decreases ud.graphics@.len() - g,
            {
                assert(ud.graphics@.take(g + 1).drop_last() =~= ud.graphics@.take(g as int));
                let ghost before = pts@;
                match &ud.graphics[g] {
                    Graphic::Polyline(line) => {
                        let mut k: usize = 0;
                        assert(before + line@.take(0) =~= before);
                        while k < line.len()
                            invariant
                                k <= line@.len(),
                                pts@ == before + line@.take(k as int),
                            decreases line@.len() - k,
                        {
                            pts.push(line[k]);
                            k = k + 1;
                            assert(pts@ =~= before + line@.take(k as int));
                        }
                        assert(line@.take(k as int) =~= line@);
                    },
                    Graphic::Rectangle(a, b) => {
                        pts.push(*a);
                        pts.push(*b);
                        assert(pts@ =~= before + seq![*a, *b]);
                    },
                    Graphic::Other(_) => {
                        assert(pts@ =~= before + Seq::<Point>::empty());
                    },
                }
                g = g + 1;
                assert(pts@ =~= done + graphics_points(ud.graphics@.take(g as int)));
            }
            assert(ud.graphics@.take(g as int) =~= ud.graphics@);
        }
        u = u + 1;
    }
    assert(def.units@.take(u as int) =~= def.units@);
    pts
}

impl Bounds<Option<BoundingBox>> for SymbolInstance {
    /// The smallest box holding the polyline and rectangle points of the
    /// applicable units; `None` when they have none. Pins do not count.
    open spec fn bounded_by(&self, lib: SymbolDef, r: Option<BoundingBox>) -> bool {
        match r {
            Some(b) => is_bounding_box(b, outline_points(lib.units@, self.unit))
                && outline_points(lib.units@, self.unit).len() > 0,
            None => outline_points(lib.units@, self.unit).len() == 0,
        }
    }

    fn bounds(&self, lib: &SymbolDef) -> (r: Option<BoundingBox>) {
        let pts = outline(lib, self.unit);
        bounding_box(&pts)
    }
}

} // verus!
