use vstd::prelude::*;

use crate::geometry::{Placement, Point};
use crate::graph::{appended, final_identifier, id_view, Net, NetRegistry};
use crate::emit::{find_pin, nodes_text, push_entry_text};
use crate::library::{
    all_pin_refs, lemma_pin_count, lists_pin_table, applicable_pins, def_in_range, find_property, pin_table, property_of, PinDef,
    PinRef, Property, SymbolDef, SymbolInstance, UnitDef,
};
use crate::text::{index_list, parse_index_list};

verus! {

/// Why a schematic could not be turned into a netlist.
#[derive(Clone, Copy, Debug, PartialEq, Eq, Structural)]
pub enum NetlistError {
    /// An instance names a library symbol that was never defined.
    MissingLibrary,
    /// A pin order names a pin that the symbol does not have.
    MissingPin,
    /// A pin order is not a whitespace-separated list of integers.
    InvalidNodeSequence,
    /// A property that the emitted line needs is absent.
    MissingProperty,
    /// The library section was left more often than it was entered.
    Nesting,
}

/// An element of a schematic, as the traversal hands it over.
#[derive(Clone, Debug)]
pub enum Element {
    Definition(SymbolDef),
    Instance(SymbolInstance),
    Wire(Point, Point),
    Label(Point, String),
    GlobalLabel(Point, String),
    NoConnect(Point),
}

/// All placements that share one reference designator.
#[derive(Clone, Debug)]
pub struct ReferenceGroup {
    pub reference: String,
    pub instances: Vec<SymbolInstance>,
}

/// The definition a library name resolves to: the last one registered.
pub open spec fn library_of(libs: Seq<SymbolDef>, name: Seq<char>) -> Option<SymbolDef>
    decreases libs.len(),
{
    if libs.len() == 0 {
        None
    } else if libs.last().name@ == name {
        Some(libs.last())
    } else {
        library_of(libs.drop_last(), name)
    }
}

/// The position of the group with the given reference.
pub open spec fn group_position(groups: Seq<ReferenceGroup>, reference: Seq<char>) -> Option<int>
    decreases groups.len(),
{
    if groups.len() == 0 {
        None
    } else if groups.last().reference@ == reference {
        Some(groups.len() - 1)
    } else {
        group_position(groups.drop_last(), reference)
    }
}

/// `new` is `old` with `inst` recorded under `reference`: appended to the
/// existing group, or as the first of a new group at the end.
pub open spec fn grouped(old: Seq<ReferenceGroup>, new: Seq<ReferenceGroup>, reference: String, inst: SymbolInstance) -> bool {
    match group_position(old, reference@) {
        Some(k) => {
            &&& new.len() == old.len()
            &&& forall|j: int| 0 <= j < old.len() && j != k ==> #[trigger] new[j] == old[j]
            &&& new[k].reference == old[k].reference
            &&& new[k].instances@ == old[k].instances@.push(inst)
        },
        None => {
            &&& new.len() == old.len() + 1
            &&& new.drop_last() == old
            &&& new.last().reference == reference
            &&& new.last().instances@ == seq![inst]
        },
    }
}

/// The nets and index after one pin of an instance is placed at `at`.
pub open spec fn pin_effect(
    nets: Seq<Net>,
    index: Map<Point, usize>,
    at: Point,
    kind: String,
    candidate: Option<String>,
) -> (Seq<Net>, Map<Point, usize>) {
    if index.contains_key(at) {
        let i = index[at] as int;
        let id = match candidate {
            Some(c) => Some(c),
            None => nets[i].identifier,
        };
        (nets.update(i, Net { identifier: id, kind, coords: nets[i].coords }), index)
    } else {
        (nets.push(Net { identifier: candidate, kind, coords: at }), index.insert(at, nets.len() as usize))
    }
}

/// The nets and index after a run of pins is placed, in order.
pub open spec fn pins_effect(
    nets: Seq<Net>,
    index: Map<Point, usize>,
    pins: Seq<PinDef>,
    placement: Placement,
    candidate: Option<String>,
) -> (Seq<Net>, Map<Point, usize>)
    decreases pins.len(),
{
    if pins.len() == 0 {
        (nets, index)
    } else {
        let prev = pins_effect(nets, index, pins.drop_last(), placement, candidate);
        pin_effect(prev.0, prev.1, placement.place(pins.last().at), pins.last().electrical, candidate)
    }
}

/// The identifier an instance gives the nets its pins touch: the `Value` of
/// a power symbol, nothing otherwise.
pub open spec fn candidate_of(def: SymbolDef, inst: SymbolInstance) -> Option<String> {
    if def.power {
        property_of(inst.properties@, "Value"@)
    } else {
        None
    }
}

/// Builds the connectivity of one schematic and emits its netlist.
pub struct Netlist {
    depth: u64,
    libraries: Vec<SymbolDef>,
    groups: Vec<ReferenceGroup>,
    registry: NetRegistry,
}

impl Netlist {
    /// How deep the traversal is inside the library section.
    pub closed spec fn depth(&self) -> nat {
        self.depth as nat
    }

    /// The library definitions, in the order registered.
    pub closed spec fn libraries(&self) -> Seq<SymbolDef> {
        self.libraries@
    }

    /// The reference groups, in the order of their first instance.
    pub closed spec fn groups(&self) -> Seq<ReferenceGroup> {
        self.groups@
    }

    pub closed spec fn nets(&self) -> Seq<Net> {
        self.registry.nets()
    }

    pub closed spec fn index(&self) -> Map<Point, usize> {
        self.registry.index()
    }

    /// The registry is consistent, every library pin lies within the
    /// coordinate limit, and so does every recorded placement.
    pub closed spec fn wf(&self) -> bool {
        &&& self.registry.wf()
        &&& forall|k: int| 0 <= k < self.libraries@.len() ==> def_in_range(#[trigger] self.libraries@[k])
        &&& forall|g: int, k: int| 0 <= g < self.groups@.len() && 0 <= k < self.groups@[g].instances@.len()
            ==> (#[trigger] self.groups@[g].instances@[k]).placement.in_range()
    }

    /// Every registered point refers to an existing net.
    pub proof fn lemma_index_valid(&self, p: Point)
        requires
            self.wf(),
            self.index().contains_key(p),
        ensures
            self.index()[p] < self.nets().len(),
    {
    }

    /// An empty netlist, outside the library section.
    pub fn new() -> (r: Netlist)
        ensures
            r.wf(),
            r.depth() == 0,
            r.libraries() == Seq::<SymbolDef>::empty(),
            r.groups() == Seq::<ReferenceGroup>::empty(),
            r.nets() == Seq::<Net>::empty(),
            r.index() == Map::<Point, usize>::empty(),
    {
        Netlist { depth: 0, libraries: Vec::new(), groups: Vec::new(), registry: NetRegistry::new() }
    }

    /// The number of nets.
    pub fn net_count(&self) -> (r: usize)
        requires
            self.wf(),
        ensures
            r == self.nets().len(),
    {
        self.registry.len()
    }

    /// The net at position `i`.
    pub fn net(&self, i: usize) -> (r: &Net)
        requires
            self.wf(),
            i < self.nets().len(),
        ensures
            *r == self.nets()[i as int],
    {
        self.registry.net(i)
    }

    /// The net a point belongs to, if it is registered.
    pub fn net_at(&self, p: &Point) -> (r: Option<usize>)
        requires
            self.wf(),
        ensures
            r == (if self.index().contains_key(*p) { Some(self.index()[*p]) } else { None::<usize> }),
    {
        self.registry.lookup(p)
    }

    /// The traversal enters the library section.
    pub fn start_library_symbols(&mut self) -> (r: Result<(), NetlistError>)
        ensures
            old(self).depth() < u64::MAX ==> r is Ok && final(self).depth() == old(self).depth() + 1,
            old(self).depth() == u64::MAX ==> r == Err::<(), NetlistError>(NetlistError::Nesting) && final(self).depth() == old(self).depth(),
            final(self).libraries() == old(self).libraries(),
            final(self).groups() == old(self).groups(),
            final(self).nets() == old(self).nets(),
            final(self).index() == old(self).index(),
            old(self).wf() ==> final(self).wf(),
    {
        if self.depth == u64::MAX {
            return Err(NetlistError::Nesting);
        }
        self.depth = self.depth + 1;
        Ok(())
    }

    /// The traversal leaves the library section.
    pub fn end_library_symbols(&mut self) -> (r: Result<(), NetlistError>)
        ensures
            old(self).depth() > 0 ==> r is Ok && final(self).depth() == old(self).depth() - 1,
            old(self).depth() == 0 ==> r == Err::<(), NetlistError>(NetlistError::Nesting) && final(self).depth() == 0,
            final(self).libraries() == old(self).libraries(),
            final(self).groups() == old(self).groups(),
            final(self).nets() == old(self).nets(),
            final(self).index() == old(self).index(),
            old(self).wf() ==> final(self).wf(),
    {
        if self.depth == 0 {
            return Err(NetlistError::Nesting);
        }
        self.depth = self.depth - 1;
        Ok(())
    }

    /// Registers a library definition under its name; a later definition of
    /// the same name takes precedence.
    pub fn add_definition(&mut self, def: SymbolDef)
        requires
            old(self).wf(),
            def_in_range(def),
        ensures
            final(self).wf(),
            final(self).depth() == old(self).depth(),
            final(self).libraries() == old(self).libraries().push(def),
            final(self).groups() == old(self).groups(),
            final(self).nets() == old(self).nets(),
            final(self).index() == old(self).index(),
    {
        self.libraries.push(def);
    }

    /// The definition registered under a name.
    pub fn library(&self, name: &str) -> (r: Option<&SymbolDef>)
        ensures
            match r {
                Some(d) => library_of(self.libraries(), name@) == Some(*d),
                None => library_of(self.libraries(), name@) is None,
            },
    {
        match self.library_position(name) {
            Some(k) => Some(&self.libraries[k]),
            None => None,
        }
    }

    fn library_position(&self, name: &str) -> (r: Option<usize>)
        ensures
            match r {
                Some(k) => k < self.libraries@.len() && library_of(self.libraries(), name@) == Some(self.libraries@[k as int]),
                None => library_of(self.libraries(), name@) is None,
            },
    {
        let wanted: String = name.to_owned();
        let mut k: usize = self.libraries.len();
        assert(self.libraries@.take(k as int) =~= self.libraries@);
        while k > 0
            invariant
                k <= self.libraries@.len(),
                wanted@ == name@,
                library_of(self.libraries@, name@) == library_of(self.libraries@.take(k as int), name@),
            decreases k,
        {
            let ghost pre = self.libraries@.take(k as int);
            assert(pre.drop_last() =~= self.libraries@.take(k - 1));
            if self.libraries[k - 1].name == wanted {
                return Some(k - 1);
            }
            k = k - 1;
        }
        None
    }

    /// Records an instance under its reference.
    fn record(&mut self, reference: String, inst: SymbolInstance)
        requires
            old(self).wf(),
            inst.placement.in_range(),
        ensures
            final(self).wf(),
            final(self).depth() == old(self).depth(),
            final(self).libraries() == old(self).libraries(),
            final(self).nets() == old(self).nets(),
            final(self).index() == old(self).index(),
            grouped(old(self).groups(), final(self).groups(), reference, inst),
    {
        let mut k: usize = self.groups.len();
        assert(self.groups@.take(k as int) =~= self.groups@);
        while k > 0
            invariant
                k <= self.groups@.len(),
                *self == *old(self),
                old(self).wf(),
                inst.placement.in_range(),
                group_position(self.groups@, reference@) == group_position(self.groups@.take(k as int), reference@),
            decreases k,
        {
            let ghost pre = self.groups@.take(k as int);
            assert(pre.drop_last() =~= self.groups@.take(k - 1));
            if self.groups[k - 1].reference == reference {
                let ghost g0 = self.groups@[k - 1];
                self.groups[k - 1].instances.push(inst);
                assert forall|g: int, m: int| 0 <= g < self.groups@.len() && 0 <= m < self.groups@[g].instances@.len()
                    implies (#[trigger] self.groups@[g].instances@[m]).placement.in_range() by {
                    if g != k - 1 || m < g0.instances@.len() {
                        assert(old(self).groups@[g].instances@[m] == self.groups@[g].instances@[m]);
                    }
                }
                return;
            }
            k = k - 1;
        }
        assert(self.groups@.take(0) =~= Seq::<ReferenceGroup>::empty());
        let mut instances: Vec<SymbolInstance> = Vec::new();
        instances.push(inst);
        self.groups.push(ReferenceGroup { reference, instances });
        assert(self.groups@.drop_last() =~= old(self).groups@);
        assert(self.groups@.last().instances@ =~= seq![inst]);
        assert forall|g: int, m: int| 0 <= g < self.groups@.len() && 0 <= m < self.groups@[g].instances@.len()
            implies (#[trigger] self.groups@[g].instances@[m]).placement.in_range() by {
            if g < old(self).groups@.len() {
                assert(old(self).groups@[g] == self.groups@[g]);
            }
        }
    }

    /// Places an instance: its pins join or create nets, and the instance is
    /// recorded under its `Reference` (an instance without one is not
    /// recorded). Fails when its library symbol is unknown, changing nothing.
    pub fn add_instance(&mut self, inst: SymbolInstance) -> (r: Result<(), NetlistError>)
        requires
            old(self).wf(),
            inst.placement.in_range(),
        ensures
            final(self).wf(),
            final(self).depth() == old(self).depth(),
            final(self).libraries() == old(self).libraries(),
            instance_applied(
                old(self).libraries(), old(self).groups(), old(self).nets(), old(self).index(),
                final(self).groups(), final(self).nets(), final(self).index(), inst, r),
    {
        let k = match self.library_position(inst.lib_id.as_str()) {
            Some(k) => k,
            None => {
                return Err(NetlistError::MissingLibrary);
            },
        };
        proof {
            reveal_strlit("Value");
            reveal_strlit("Reference");
        }
        let candidate = if self.libraries[k].power {
            find_property(&inst.properties, "Value")
        } else {
            None
        };
        assert(def_in_range(self.libraries@[k as int]));
        place_pins(&mut self.registry, &self.libraries[k], inst.unit, &inst.placement, &candidate);
        match find_property(&inst.properties, "Reference") {
            Some(reference) => {
                self.record(reference, inst);
            },
            None => {},
        }
        Ok(())
    }

    /// Handles one element of the traversal. Definitions count only directly
    /// inside the library section, every other element only outside it; an
    /// element elsewhere changes nothing.
    pub fn visit(&mut self, element: Element) -> (r: Result<(), NetlistError>)
        requires
            old(self).wf(),
            element_in_range(element),
        ensures
            final(self).wf(),
            final(self).depth() == old(self).depth(),
            visit_applied(*old(self), *final(self), element, r),
    {
        if self.depth == 1 {
            if let Element::Definition(def) = element {
                self.add_definition(def);
            }
            return Ok(());
        }
        if self.depth != 0 {
            return Ok(());
        }
        match element {
            Element::Definition(_) => Ok(()),
            Element::Instance(inst) => self.add_instance(inst),
            Element::Wire(a, b) => {
                self.add_wire(a, b);
                Ok(())
            },
            Element::Label(at, text) => {
                self.add_label(at, text);
                Ok(())
            },
            Element::GlobalLabel(at, text) => {
                self.add_label(at, text);
                Ok(())
            },
            Element::NoConnect(at) => {
                self.add_no_connect(at);
                Ok(())
            },
        }
    }

    /// The pin table of a library symbol: each pin number once, with its
    /// position and owning unit. Fails when the symbol is unknown.
    pub fn pins(&self, lib_name: &str) -> (r: Result<Vec<PinRef>, NetlistError>)
        ensures
            match r {
                Ok(v) => library_of(self.libraries(), lib_name@) matches Some(def) && lists_pin_table(v@, def.units@),
                Err(e) => e == NetlistError::MissingLibrary && library_of(self.libraries(), lib_name@) is None,
            },
    {
        match self.library_position(lib_name) {
            Some(k) => Ok(self.libraries[k].pin_refs()),
            None => Err(NetlistError::MissingLibrary),
        }
    }

    /// The line of group `g`, `None` when the group is skipped.
    fn emit_group(&self, g: usize) -> (r: Result<Option<String>, NetlistError>)
        requires
            self.wf(),
            g < self.groups@.len(),
        ensures
            match r {
                Ok(Some(l)) => group_line(self.libraries(), self.nets(), self.index(), self.groups@[g as int]) == Ok::<Option<Seq<char>>, NetlistError>(Some(l@)),
                Ok(None) => group_line(self.libraries(), self.nets(), self.index(), self.groups@[g as int]) == Ok::<Option<Seq<char>>, NetlistError>(None),
                Err(e) => group_line(self.libraries(), self.nets(), self.index(), self.groups@[g as int]) == Err::<Option<Seq<char>>, NetlistError>(e),
            },
    {
        proof {
            reveal_strlit("Spice_Netlist_Enabled");
            reveal_strlit("Spice_Node_Sequence");
            reveal_strlit("Spice_Primitive");
            reveal_strlit("Spice_Model");
            reveal_strlit("Value");
            reveal_strlit("N");
            reveal_strlit("X");
            reveal_strlit(" ");
            reveal_strlit(" - ");
            reveal_strlit("- ");
            reveal_strlit(" - - ");
        }
        let group = &self.groups[g];
        if group.instances.len() == 0 {
            return Ok(None);
        }
        let reference = group.reference.as_str();
        if reference.unicode_len() > 0 && reference.get_char(0) == '#' {
            return Ok(None);
        }
        let first = &group.instances[0];
        let props = &first.properties;
        if let Some(enabled) = find_property(props, "Spice_Netlist_Enabled") {
            if enabled == "N".to_owned() {
                return Ok(None);
            }
        }
        let k = match self.library_position(first.lib_id.as_str()) {
            Some(k) => k,
            None => {
                return Err(NetlistError::MissingLibrary);
            },
        };
        let def = &self.libraries[k];
        let table = def.pin_refs();
        let ghost tmap = pin_table(all_pin_refs(def.units@));
        proof {
            lemma_pin_count(table@, def.units@);
        }
        let order: Vec<usize> = match find_property(props, "Spice_Node_Sequence") {
            Some(text) => match parse_index_list(text.as_str()) {
                Some(v) => v,
                None => {
                    return Err(NetlistError::InvalidNodeSequence);
                },
            },
            None => {
                let mut v: Vec<usize> = Vec::new();
                let mut i: usize = 0;
                while i < table.len()
                    invariant
                        i <= table@.len(),
                        v@ == Seq::new(i as nat, |m: int| m as usize),
                    decreases table@.len() - i,
                {
                    v.push(i);
                    i = i + 1;
                    assert(v@ =~= Seq::new(i as nat, |m: int| m as usize));
                }
                v
            },
        };
        assert(pin_order(props@, tmap.dom().len()) == Some(order@));
        let ghost nets = self.nets();
        let ghost index = self.index();
        let ghost insts = group.instances@;
        let mut text = String::new();
        let mut i: usize = 0;
        assert(order@.take(0) =~= Seq::<usize>::empty());
        assert(text@ =~= Seq::<char>::empty());
        while i < order.len()
            invariant
                self.wf(),
                g < self.groups@.len(),
                *group == self.groups@[g as int],
                k < self.libraries@.len(),
                *def == self.libraries@[k as int],
                group.instances@.len() > 0,
                !skipped(*group),
                library_of(self.libraries(), group.instances@[0].lib_id@) == Some(*def),
                pin_order(group.instances@[0].properties@, tmap.dom().len()) == Some(order@),
                insts == group.instances@,
                nets == self.nets(),
                index == self.index(),
                lists_pin_table(table@, def.units@),
                tmap == pin_table(all_pin_refs(def.units@)),
                i <= order@.len(),
                nodes_text(nets, index, insts, tmap, order@.take(i as int)) == Some(text@),
            decreases order@.len() - i,
        {
            let e = order[i];
            assert(order@.take(i + 1).drop_last() =~= order@.take(i as int));
            if e == usize::MAX {
                proof {
                    lemma_nodes_none(nets, index, insts, tmap, order@, i as int + 1);
                }
                return Err(NetlistError::MissingPin);
            }
            match find_pin(&table, e + 1) {
                Some(pin) => {
                    assert(tmap.contains_key((e + 1) as usize));
                    assert(tmap[(e + 1) as usize] == pin);
                    assert(pin.at.in_range()) by {
                        lemma_table_in_range(def.units@, (e + 1) as usize);
                    }
                    assert forall|m: int| 0 <= m < group.instances@.len()
                        implies (#[trigger] group.instances@[m]).placement.in_range() by {
                        assert(self.groups@[g as int].instances@[m] == group.instances@[m]);
                    }
                    push_entry_text(&mut text, &self.registry, &group.instances, &pin);
                },
                None => {
                    assert(!tmap.contains_key((e + 1) as usize));
                    proof {
                        lemma_nodes_none(nets, index, insts, tmap, order@, i as int + 1);
                    }
                    return Err(NetlistError::MissingPin);
                },
            }
            i = i + 1;
        }
        assert(order@.take(i as int) =~= order@);
        let mut line = String::new();
        match find_property(props, "Spice_Primitive") {
            None => match find_property(props, "Value") {
                None => {
                    return Err(NetlistError::MissingProperty);
                },
                Some(v) => {
                    line.append(reference);
                    line.append(" ");
                    line.append(text.as_str());
                    line.append(v.as_str());
                    assert(line@ =~= group.reference@ + " "@ + text@ + v@);
                },
            },
            Some(prim) => {
                if prim == "X".to_owned() {
                    match find_property(props, "Spice_Model") {
                        None => {
                            return Err(NetlistError::MissingProperty);
                        },
                        Some(m) => {
                            line.append(prim.as_str());
                            line.append(reference);
                            line.append(" - ");
                            line.append(text.as_str());
                            line.append("- ");
                            line.append(m.as_str());
                            assert(line@ =~= prim@ + group.reference@ + " - "@ + text@ + "- "@ + m@);
                        },
                    }
                } else {
                    match find_property(props, "Value") {
                        None => {
                            return Err(NetlistError::MissingProperty);
                        },
                        Some(v) => {
                            line.append(prim.as_str());
                            line.append(reference);
                            line.append(" - - ");
                            line.append(v.as_str());
                            assert(line@ =~= prim@ + group.reference@ + " - - "@ + v@);
                        },
                    }
                }
            },
        }
        Ok(Some(line))
    }

    /// Finalizes the nets, then emits one line per group that is not
    /// skipped, in the order the groups were first seen.
    pub fn dump(&mut self) -> (r: Result<Vec<String>, NetlistError>)
        requires
            old(self).wf(),
        ensures
            final(self).wf(),
            final(self).depth() == old(self).depth(),
            final(self).libraries() == old(self).libraries(),
            final(self).groups() == old(self).groups(),
            final(self).index() == old(self).index(),
            final(self).nets().len() == old(self).nets().len(),
            forall|i: int| 0 <= i < old(self).nets().len() ==> {
                &&& #[trigger] final(self).nets()[i].identifier is Some
                &&& id_view(final(self).nets()[i].identifier) == Some(final_identifier(old(self).nets(), i))
                &&& final(self).nets()[i].kind == old(self).nets()[i].kind
                &&& final(self).nets()[i].coords == old(self).nets()[i].coords
            },
            match r {
                Ok(lines) => group_lines(final(self).libraries(), final(self).nets(), final(self).index(), final(self).groups())
                    == Ok::<Seq<Seq<char>>, NetlistError>(texts(lines@)),
                Err(e) => group_lines(final(self).libraries(), final(self).nets(), final(self).index(), final(self).groups())
                    == Err::<Seq<Seq<char>>, NetlistError>(e),
            },
    {
        self.registry.finalize();
        self.emit_all()
    }

    /// One line per group that is not skipped, in group order.
    fn emit_all(&self) -> (r: Result<Vec<String>, NetlistError>)
        requires
            self.wf(),
        ensures
            match r {
                Ok(lines) => group_lines(self.libraries(), self.nets(), self.index(), self.groups())
                    == Ok::<Seq<Seq<char>>, NetlistError>(texts(lines@)),
                Err(e) => group_lines(self.libraries(), self.nets(), self.index(), self.groups())
                    == Err::<Seq<Seq<char>>, NetlistError>(e),
            },
    {
        let mut lines: Vec<String> = Vec::new();
        let mut g: usize = 0;
        assert(self.groups@.take(0) =~= Seq::<ReferenceGroup>::empty());
        assert(texts(lines@) =~= Seq::<Seq<char>>::empty());
        while g < self.groups.len()
            invariant
                self.wf(),
                g <= self.groups@.len(),
                group_lines(self.libraries(), self.nets(), self.index(), self.groups@.take(g as int))
                    == Ok::<Seq<Seq<char>>, NetlistError>(texts(lines@)),
            decreases self.groups@.len() - g,
        {
            assert(self.groups@.take(g + 1).drop_last() =~= self.groups@.take(g as int));
            assert(self.groups@.take(g + 1).last() == self.groups@[g as int]);
            match self.emit_group(g) {
                Ok(Some(l)) => {
                    let ghost before = lines@;
                    lines.push(l);
                    assert(texts(lines@) =~= texts(before).push(l@));
                },
                Ok(None) => {},
                Err(e) => {
                    proof {
                        lemma_lines_err(self.libraries(), self.nets(), self.index(), self.groups@, g as int + 1, e);
                    }
                    return Err(e);
                },
            }
            g = g + 1;
        }
        assert(self.groups@.take(g as int) =~= self.groups@);
        Ok(lines)
    }

    /// A wire joins its endpoints: an unregistered endpoint joins the net of
    /// the other; two unregistered endpoints get one new net; two registered
    /// endpoints are left as they are.
    pub fn add_wire(&mut self, a: Point, b: Point)
        requires
            old(self).wf(),
        ensures
            final(self).wf(),
            final(self).depth() == old(self).depth(),
            final(self).libraries() == old(self).libraries(),
            final(self).groups() == old(self).groups(),
            wire_applied(old(self).nets(), old(self).index(), final(self).nets(), final(self).index(), a, b),
    {
        let ra = self.registry.lookup(&a);
        let rb = self.registry.lookup(&b);
        match (ra, rb) {
            (Some(_), Some(_)) => {},
            (Some(_), None) => {
                self.registry.alias(&a, b);
            },
            (None, Some(_)) => {
                self.registry.alias(&b, a);
            },
            (None, None) => {
                let n = self.registry.create(a, None, String::new());
                if a != b {
                    self.registry.alias(&a, b);
                }
                proof {
                    assert(self.registry.nets().drop_last() =~= old(self).nets());
                    if a == b {
                        assert(self.registry.index() =~= old(self).index().insert(a, n).insert(b, n));
                    }
                }
            },
        }
    }

    /// A label names the net at its point, creating the net if needed. Only
    /// the identifier changes; the kind is kept.
    pub fn add_label(&mut self, at: Point, text: String)
        requires
            old(self).wf(),
        ensures
            final(self).wf(),
            final(self).depth() == old(self).depth(),
            final(self).libraries() == old(self).libraries(),
            final(self).groups() == old(self).groups(),
            label_applied(old(self).nets(), old(self).index(), final(self).nets(), final(self).index(), at, text),
    {
        match self.registry.lookup(&at) {
            Some(i) => {
                self.registry.set_identifier(i, Some(text));
            },
            None => {
                self.registry.create(at, Some(text), String::new());
                assert(self.registry.nets().drop_last() =~= old(self).nets());
            },
        }
    }

    /// A no-connect marker marks the net at its point as not connected,
    /// creating the net if needed.
    pub fn add_no_connect(&mut self, at: Point)
        requires
            old(self).wf(),
        ensures
            final(self).wf(),
            final(self).depth() == old(self).depth(),
            final(self).libraries() == old(self).libraries(),
            final(self).groups() == old(self).groups(),
            no_connect_applied(old(self).nets(), old(self).index(), final(self).nets(), final(self).index(), at),
    {
        proof {
            reveal_strlit("NC");
            reveal_strlit("no_connect");
        }
        let id = "NC".to_owned();
        let kind = "no_connect".to_owned();
        match self.registry.lookup(&at) {
            Some(i) => {
                self.registry.set_identifier(i, Some(id));
                self.registry.set_kind(i, kind);
            },
            None => {
                self.registry.create(at, Some(id), kind);
                assert(self.registry.nets().drop_last() =~= old(self).nets());
            },
        }
    }
}

/// A copy of an optional identifier.
fn copy_id(id: &Option<String>) -> (r: Option<String>)
    ensures
        r == *id,
{
    match id {
        Some(s) => Some(s.clone()),
        None => None,
    }
}

/// Places every pin of the units of `def` that apply to `unit`, in order:
/// a pin on a registered point sets that net's kind, and its identifier when
/// there is a candidate; a pin elsewhere creates a net.
fn place_pins(
    registry: &mut NetRegistry,
    def: &SymbolDef,
    unit: usize,
    placement: &Placement,
    candidate: &Option<String>,
)
    requires
        old(registry).wf(),
        def_in_range(*def),
        placement.in_range(),
    ensures
        final(registry).wf(),
        (final(registry).nets(), final(registry).index()) == pins_effect(
            old(registry).nets(),
            old(registry).index(),
            applicable_pins(def.units@, unit),
            *placement,
            *candidate,
        ),
{
    let ghost nets0 = registry.nets();
    let ghost index0 = registry.index();
    let mut u: usize = 0;
    while u < def.units.len()
        invariant
            u <= def.units@.len(),
            registry.wf(),
            def_in_range(*def),
            placement.in_range(),
            (registry.nets(), registry.index()) == pins_effect(
                nets0, index0, applicable_pins(def.units@.take(u as int), unit), *placement, *candidate),
        decreases def.units@.len() - u,
    {
        let ud = &def.units[u];
        assert(def.units@.take(u + 1).drop_last() =~= def.units@.take(u as int));
        if ud.unit == 0 || ud.unit == unit {
            let ghost done = applicable_pins(def.units@.take(u as int), unit);
            let mut j: usize = 0;
            assert(done + ud.pins@.take(0) =~= done);
            while j < ud.pins.len()
                invariant
                    u < def.units@.len(),
                    *ud == def.units@[u as int],
                    j <= ud.pins@.len(),
                    registry.wf(),
                    def_in_range(*def),
                    placement.in_range(),
                    (registry.nets(), registry.index()) == pins_effect(
                        nets0, index0, done + ud.pins@.take(j as int), *placement, *candidate),
                decreases ud.pins@.len() - j,
            {
                let pin = &ud.pins[j];
                assert(pin.at.in_range()) by {
                    assert(def.units@[u as int].pins@[j as int] == *pin);
                }
                assert((done + ud.pins@.take(j + 1)).drop_last() =~= done + ud.pins@.take(j as int));
                assert((done + ud.pins@.take(j + 1)).last() == *pin);
                let at = placement.place_point(&pin.at);
                match registry.lookup(&at) {
                    Some(i) => {
                        let id = match candidate {
                            Some(c) => Some(c.clone()),
                            None => copy_id(&registry.net(i).identifier),
                        };
                        registry.set_kind(i, pin.electrical.clone());
                        registry.set_identifier(i, id);
                    },
                    None => {
                        registry.create(at, copy_id(candidate), pin.electrical.clone());
                    },
                }
                j = j + 1;
            }
            assert(ud.pins@.take(j as int) =~= ud.pins@);
        }
        u = u + 1;
    }
    assert(def.units@.take(u as int) =~= def.units@);
}

/// The positions an element's arithmetic needs lie within the coordinate limit.
pub open spec fn element_in_range(e: Element) -> bool {
    match e {
        Element::Definition(def) => def_in_range(def),
        Element::Instance(inst) => inst.placement.in_range(),
        _ => true,
    }
}

/// The effect of placing `inst`: on an unknown library symbol an error and
/// no change; otherwise its applicable pins placed in order, and the instance
/// recorded under its `Reference`.
pub open spec fn instance_applied(
    libs: Seq<SymbolDef>,
    groups: Seq<ReferenceGroup>,
    nets: Seq<Net>,
    index: Map<Point, usize>,
    groups2: Seq<ReferenceGroup>,
    nets2: Seq<Net>,
    index2: Map<Point, usize>,
    inst: SymbolInstance,
    r: Result<(), NetlistError>,
) -> bool {
    match library_of(libs, inst.lib_id@) {
        None => {
            &&& r == Err::<(), NetlistError>(NetlistError::MissingLibrary)
            &&& groups2 == groups && nets2 == nets && index2 == index
        },
        Some(def) => {
            &&& r is Ok
            &&& (nets2, index2) == pins_effect(
                nets, index, applicable_pins(def.units@, inst.unit), inst.placement, candidate_of(def, inst))
            &&& match property_of(inst.properties@, "Reference"@) {
                Some(reference) => grouped(groups, groups2, reference, inst),
                None => groups2 == groups,
            }
        },
    }
}

/// The effect of visiting one element.
pub open spec fn visit_applied(s: Netlist, t: Netlist, e: Element, r: Result<(), NetlistError>) -> bool {
    let unchanged = t.libraries() == s.libraries() && t.groups() == s.groups() && t.nets() == s.nets()
        && t.index() == s.index();
    if s.depth() == 1 {
        &&& r is Ok
        &&& match e {
            Element::Definition(def) => t.libraries() == s.libraries().push(def) && t.groups() == s.groups()
                && t.nets() == s.nets() && t.index() == s.index(),
            _ => unchanged,
        }
    } else if s.depth() != 0 {
        r is Ok && unchanged
    } else {
        match e {
            Element::Definition(_) => r is Ok && unchanged,
            Element::Instance(inst) => {
                &&& t.libraries() == s.libraries()
                &&& instance_applied(s.libraries(), s.groups(), s.nets(), s.index(), t.groups(), t.nets(), t.index(), inst, r)
            },
            Element::Wire(a, b) => {
                &&& r is Ok
                &&& t.libraries() == s.libraries() && t.groups() == s.groups()
                &&& wire_applied(s.nets(), s.index(), t.nets(), t.index(), a, b)
            },
            Element::Label(at, text) => {
                &&& r is Ok
                &&& t.libraries() == s.libraries() && t.groups() == s.groups()
                &&& label_applied(s.nets(), s.index(), t.nets(), t.index(), at, text)
            },
            Element::GlobalLabel(at, text) => {
                &&& r is Ok
                &&& t.libraries() == s.libraries() && t.groups() == s.groups()
                &&& label_applied(s.nets(), s.index(), t.nets(), t.index(), at, text)
            },
            Element::NoConnect(at) => {
                &&& r is Ok
                &&& t.libraries() == s.libraries() && t.groups() == s.groups()
                &&& no_connect_applied(s.nets(), s.index(), t.nets(), t.index(), at)
            },
        }
    }
}

/// The pin order of a group: the parsed `Spice_Node_Sequence` when present,
/// otherwise `0..count`.
pub open spec fn pin_order(props: Seq<Property>, count: nat) -> Option<Seq<usize>> {
    match property_of(props, "Spice_Node_Sequence"@) {
        Some(s) => index_list(s@),
        None => Some(Seq::new(count, |i: int| i as usize)),
    }
}

/// Whether a group is left out of the netlist: power symbols (references
/// starting with `#`) and groups whose `Spice_Netlist_Enabled` is `N`.
pub open spec fn skipped(g: ReferenceGroup) -> bool {
    ||| g.instances@.len() == 0
    ||| (g.reference@.len() > 0 && g.reference@[0] == '#')
    ||| match property_of(g.instances@[0].properties@, "Spice_Netlist_Enabled"@) {
        Some(e) => e@ == "N"@,
        None => false,
    }
}

/// The netlist line of a group, `None` when the group is skipped. The first
/// instance's properties decide the pin order and the format.
pub open spec fn group_line(
    libs: Seq<SymbolDef>,
    nets: Seq<Net>,
    index: Map<Point, usize>,
    g: ReferenceGroup,
) -> Result<Option<Seq<char>>, NetlistError> {
    if skipped(g) {
        Ok(None)
    } else {
        let first = g.instances@[0];
        let props = first.properties@;
        match library_of(libs, first.lib_id@) {
            None => Err(NetlistError::MissingLibrary),
            Some(def) => {
                let table = pin_table(all_pin_refs(def.units@));
                match pin_order(props, table.dom().len()) {
                    None => Err(NetlistError::InvalidNodeSequence),
                    Some(order) => match nodes_text(nets, index, g.instances@, table, order) {
                        None => Err(NetlistError::MissingPin),
                        Some(t) => match property_of(props, "Spice_Primitive"@) {
                            None => match property_of(props, "Value"@) {
                                None => Err(NetlistError::MissingProperty),
                                Some(v) => Ok(Some(g.reference@ + " "@ + t + v@)),
                            },
                            Some(prim) => if prim@ == "X"@ {
                                match property_of(props, "Spice_Model"@) {
                                    None => Err(NetlistError::MissingProperty),
                                    Some(m) => Ok(Some(prim@ + g.reference@ + " - "@ + t + "- "@ + m@)),
                                }
                            } else {
                                match property_of(props, "Value"@) {
                                    None => Err(NetlistError::MissingProperty),
                                    Some(v) => Ok(Some(prim@ + g.reference@ + " - - "@ + v@)),
                                }
                            },
                        },
                    },
                }
            },
        }
    }
}

/// The lines of a run of groups, in order; the first failing group decides
/// the error.
pub open spec fn group_lines(
    libs: Seq<SymbolDef>,
    nets: Seq<Net>,
    index: Map<Point, usize>,
    groups: Seq<ReferenceGroup>,
) -> Result<Seq<Seq<char>>, NetlistError>
    decreases groups.len(),
{
    if groups.len() == 0 {
        Ok(Seq::empty())
    } else {
        match group_lines(libs, nets, index, groups.drop_last()) {
            Err(e) => Err(e),
            Ok(lines) => match group_line(libs, nets, index, groups.last()) {
                Err(e) => Err(e),
                Ok(None) => Ok(lines),
                Ok(Some(l)) => Ok(lines.push(l)),
            },
        }
    }
}

/// The text of each line.
pub open spec fn texts(lines: Seq<String>) -> Seq<Seq<char>> {
    lines.map_values(|l: String| l@)
}

/// A pin order that fails on a prefix fails as a whole.
proof fn lemma_nodes_none(
    nets: Seq<Net>,
    index: Map<Point, usize>,
    insts: Seq<SymbolInstance>,
    table: Map<usize, PinRef>,
    order: Seq<usize>,
    i: int,
)
    requires
        0 <= i <= order.len(),
        nodes_text(nets, index, insts, table, order.take(i)) is None,
    ensures
        nodes_text(nets, index, insts, table, order) is None,
    decreases order.len() - i,
{
    if i < order.len() {
        assert(order.take(i + 1).drop_last() =~= order.take(i));
        lemma_nodes_none(nets, index, insts, table, order, i + 1);
    } else {
        assert(order.take(i) =~= order);
    }
}

/// Groups that fail on a prefix fail as a whole, with the same error.
proof fn lemma_lines_err(
    libs: Seq<SymbolDef>,
    nets: Seq<Net>,
    index: Map<Point, usize>,
    groups: Seq<ReferenceGroup>,
    i: int,
    e: NetlistError,
)
    requires
        0 <= i <= groups.len(),
        group_lines(libs, nets, index, groups.take(i)) == Err::<Seq<Seq<char>>, NetlistError>(e),
    ensures
        group_lines(libs, nets, index, groups) == Err::<Seq<Seq<char>>, NetlistError>(e),
    decreases groups.len() - i,
{
    if i < groups.len() {
        assert(groups.take(i + 1).drop_last() =~= groups.take(i));
        lemma_lines_err(libs, nets, index, groups, i + 1, e);
    } else {
        assert(groups.take(i) =~= groups);
    }
}

/// Every pin in the table of a definition within range lies within range.
proof fn lemma_table_in_range(units: Seq<UnitDef>, n: usize)
    requires
        forall|u: int, k: int| 0 <= u < units.len() && 0 <= k < units[u].pins@.len()
            ==> (#[trigger] units[u].pins@[k]).at.in_range(),
        pin_table(all_pin_refs(units)).contains_key(n),
    ensures
        pin_table(all_pin_refs(units))[n].at.in_range(),
{
    lemma_refs_in_range(units);
    lemma_table_values(all_pin_refs(units), n);
}

proof fn lemma_refs_in_range(units: Seq<UnitDef>)
    requires
        forall|u: int, k: int| 0 <= u < units.len() && 0 <= k < units[u].pins@.len()
            ==> (#[trigger] units[u].pins@[k]).at.in_range(),
    ensures
        forall|j: int| 0 <= j < all_pin_refs(units).len() ==> (#[trigger] all_pin_refs(units)[j]).at.in_range(),
    decreases units.len(),
{
    if units.len() > 0 {
        let pre = units.drop_last();
        assert forall|u: int, k: int| 0 <= u < pre.len() && 0 <= k < pre[u].pins@.len()
            implies (#[trigger] pre[u].pins@[k]).at.in_range() by {
            assert(pre[u] == units[u]);
        }
        lemma_refs_in_range(pre);
        let a = all_pin_refs(pre);
        let last = units.last();
        assert forall|j: int| 0 <= j < all_pin_refs(units).len() implies (#[trigger] all_pin_refs(units)[j]).at.in_range() by {
            if j >= a.len() {
                assert(units[units.len() - 1].pins@[j - a.len()].at.in_range());
            }
        }
    }
}

proof fn lemma_table_values(s: Seq<PinRef>, n: usize)
    requires
        pin_table(s).contains_key(n),
    ensures
        exists|j: int| 0 <= j < s.len() && s[j] == #[trigger] pin_table(s)[n],
    decreases s.len(),
{
    if s.last().number != n {
        lemma_table_values(s.drop_last(), n);
        let j = choose|j: int| 0 <= j < s.drop_last().len() && s.drop_last()[j] == #[trigger] pin_table(s.drop_last())[n];
        assert(s[j] == pin_table(s)[n]);
    } else {
        assert(s[s.len() - 1] == pin_table(s)[n]);
    }
}

/// A wire with one registered and one new endpoint leaves both endpoints
/// on the same net, the one the registered endpoint had.
pub proof fn lemma_wire_union(
    nets: Seq<Net>,
    index: Map<Point, usize>,
    nets2: Seq<Net>,
    index2: Map<Point, usize>,
    a: Point,
    b: Point,
)
    requires
        wire_applied(nets, index, nets2, index2, a, b),
        index.contains_key(a) != index.contains_key(b),
    ensures
        index2.contains_key(a),
        index2.contains_key(b),
        index2[a] == index2[b],
        index.contains_key(a) ==> index2[a] == index[a],
        index.contains_key(b) ==> index2[b] == index[b],
        nets2 == nets,
{
}

/// A label on a registered point replaces that net's identifier and keeps
/// its kind; no other net and no point's net changes.
pub proof fn lemma_label_keeps_kind(
    nets: Seq<Net>,
    index: Map<Point, usize>,
    nets2: Seq<Net>,
    index2: Map<Point, usize>,
    at: Point,
    text: String,
)
    requires
        label_applied(nets, index, nets2, index2, at, text),
        index.contains_key(at),
        index[at] < nets.len(),
    ensures
        index2 == index,
        nets2.len() == nets.len(),
        nets2[index[at] as int].identifier == Some(text),
        nets2[index[at] as int].kind == nets[index[at] as int].kind,
        forall|j: int| 0 <= j < nets.len() && j != index[at] ==> #[trigger] nets2[j] == nets[j],
{
}

/// The effect of a wire from `a` to `b` on the nets and the index.
pub open spec fn wire_applied(
    nets: Seq<Net>,
    index: Map<Point, usize>,
    nets2: Seq<Net>,
    index2: Map<Point, usize>,
    a: Point,
    b: Point,
) -> bool {
    if index.contains_key(a) && index.contains_key(b) {
        nets2 == nets && index2 == index
    } else if index.contains_key(a) {
        nets2 == nets && index2 == index.insert(b, index[a])
    } else if index.contains_key(b) {
        nets2 == nets && index2 == index.insert(a, index[b])
    } else {
        &&& appended(nets, nets2, None, Seq::empty(), a)
        &&& index2 == index.insert(a, nets.len() as usize).insert(b, nets.len() as usize)
    }
}

/// The effect of a label `text` at `at` on the nets and the index.
pub open spec fn label_applied(
    nets: Seq<Net>,
    index: Map<Point, usize>,
    nets2: Seq<Net>,
    index2: Map<Point, usize>,
    at: Point,
    text: String,
) -> bool {
    if index.contains_key(at) {
        let i = index[at] as int;
        &&& index2 == index
        &&& nets2 == nets.update(i, Net { identifier: Some(text), kind: nets[i].kind, coords: nets[i].coords })
    } else {
        &&& appended(nets, nets2, Some(text@), Seq::empty(), at)
        &&& index2 == index.insert(at, nets.len() as usize)
    }
}

/// The effect of a no-connect marker at `at` on the nets and the index.
pub open spec fn no_connect_applied(
    nets: Seq<Net>,
    index: Map<Point, usize>,
    nets2: Seq<Net>,
    index2: Map<Point, usize>,
    at: Point,
) -> bool {
    if index.contains_key(at) {
        let i = index[at] as int;
        &&& index2 == index
        &&& nets2.len() == nets.len()
        &&& forall|j: int| 0 <= j < nets.len() && j != i ==> #[trigger] nets2[j] == nets[j]
        &&& id_view(nets2[i].identifier) == Some("NC"@)
        &&& nets2[i].kind@ == "no_connect"@
        &&& nets2[i].coords == nets[i].coords
    } else {
        &&& appended(nets, nets2, Some("NC"@), "no_connect"@, at)
        &&& index2 == index.insert(at, nets.len() as usize)
    }
}

} // verus!
