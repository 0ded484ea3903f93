use vstd::prelude::*;

use crate::geometry::Point;
use crate::graph::{Net, NetRegistry};
use crate::library::{PinRef, SymbolInstance};

verus! {

/// The text a placed pin contributes: its net's identifier, or `NaN` when no
/// net is registered at its point.
pub open spec fn node_text(nets: Seq<Net>, index: Map<Point, usize>, p: Point) -> Seq<char> {
    if index.contains_key(p) {
        match nets[index[p] as int].identifier {
            Some(s) => s@,
            None => Seq::empty(),
        }
    } else {
        "NaN"@
    }
}

/// The text of one pin across the instances of a group: for each instance
/// of the pin's unit, the pin's node followed by a space.
pub open spec fn entry_text(nets: Seq<Net>, index: Map<Point, usize>, instances: Seq<SymbolInstance>, pin: PinRef) -> Seq<char>
    decreases instances.len(),
{
    if instances.len() == 0 {
        Seq::empty()
    } else {
        let prev = entry_text(nets, index, instances.drop_last(), pin);
        if instances.last().unit == pin.unit {
            prev + node_text(nets, index, instances.last().placement.place(pin.at)) + " "@
        } else {
            prev
        }
    }
}

/// The node text of a pin order, whose entries count pins from zero; `None`
/// when an entry names no pin of the table.
pub open spec fn nodes_text(
    nets: Seq<Net>,
    index: Map<Point, usize>,
    instances: Seq<SymbolInstance>,
    table: Map<usize, PinRef>,
    order: Seq<usize>,
) -> Option<Seq<char>>
    decreases order.len(),
{
    if order.len() == 0 {
        Some(Seq::empty())
    } else {
        match nodes_text(nets, index, instances, table, order.drop_last()) {
            None => None,
            Some(t) => {
                let n = order.last() as int + 1;
                if n <= usize::MAX && table.contains_key(n as usize) {
                    Some(t + entry_text(nets, index, instances, table[n as usize]))
                } else {
                    None
                }
            },
        }
    }
}

/// Appends the text of one pin across the instances of a group.
pub fn push_entry_text(out: &mut String, registry: &NetRegistry, instances: &Vec<SymbolInstance>, pin: &PinRef)
    requires
        registry.wf(),
        pin.at.in_range(),
        forall|k: int| 0 <= k < instances@.len() ==> (#[trigger] instances@[k]).placement.in_range(),
    ensures
        final(out)@ == old(out)@ + entry_text(registry.nets(), registry.index(), instances@, *pin),
{
    let ghost base = out@;
    let mut i: usize = 0;
    proof {
        reveal_strlit("NaN");
        reveal_strlit(" ");
    }
    assert(instances@.take(0) =~= Seq::<SymbolInstance>::empty());
    assert(base + Seq::<char>::empty() =~= base);
    while i < instances.len()
        invariant
            i <= instances@.len(),
            registry.wf(),
            pin.at.in_range(),
            forall|k: int| 0 <= k < instances@.len() ==> (#[trigger] instances@[k]).placement.in_range(),
            out@ == base + entry_text(registry.nets(), registry.index(), instances@.take(i as int), *pin),
        decreases instances@.len() - i,
    {
        let inst = &instances[i];
        assert(instances@.take(i + 1).drop_last() =~= instances@.take(i as int));
        let ghost prev = out@;
        if inst.unit == pin.unit {
            assert(inst.placement.in_range());
            let p = inst.placement.place_point(&pin.at);
            match registry.lookup(&p) {
                Some(n) => {
                    match &registry.net(n).identifier {
                        Some(s) => out.append(s.as_str()),
                        None => {},
                    }
                },
                None => out.append("NaN"),
            }
            out.append(" ");
            assert(out@ =~= prev + node_text(registry.nets(), registry.index(), p) + " "@);
        }
        i = i + 1;
        assert(out@ =~= base + entry_text(registry.nets(), registry.index(), instances@.take(i as int), *pin));
    }
    assert(instances@.take(i as int) =~= instances@);
}

/// Finds a pin by number in a table whose numbers are distinct.
pub fn find_pin(pins: &Vec<PinRef>, number: usize) -> (r: Option<PinRef>)
    ensures
        match r {
            Some(p) => exists|k: int| 0 <= k < pins@.len() && pins@[k] == p && #[trigger] pins@[k].number == number,
            None => forall|k: int| 0 <= k < pins@.len() ==> #[trigger] pins@[k].number != number,
        },
{
    let mut k: usize = 0;
    while k < pins.len()
        invariant
            k <= pins@.len(),
            forall|m: int| 0 <= m < k ==> #[trigger] pins@[m].number != number,
        decreases pins@.len() - k,
    {
        if pins[k].number == number {
            assert(pins@[k as int].number == number);
            return Some(pins[k]);
        }
        k = k + 1;
    }
    None
}

} // verus!
