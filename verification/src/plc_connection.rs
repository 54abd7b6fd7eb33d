//! What a PLC connection does with the notification samples it receives.
use crate::data_types::symbol_map::{
    decoded, descriptor_map_entries, map_in_bounds, primitive_map_entries, DescriptorView,
    PrimitiveValueView, SymbolMap, SymbolMapExt, SymbolTypeMap,
};
use crate::data_types::symbol_tree::{tree_in_bounds, tree_of, SymbolTree, TreeView};
use crate::ordmap::seq_insert_all;
use crate::low::notification::{Sample, SampleView};
use crate::symbol::type_tree::SymbolTypeTree;
use vstd::prelude::*;

verus! {

/// The trees of the samples for notification `handle`, in order.
pub open spec fn sample_trees_spec(samples: Seq<SampleView>, handle: u32, t: crate::symbol::type_tree::TypeTreeView) -> Seq<TreeView>
    decreases samples.len(),
{
    if samples.len() == 0 {
        Seq::empty()
    } else {
        let front = sample_trees_spec(samples.drop_last(), handle, t);
        if samples.last().0 == handle {
            front.push(tree_of(samples.last().2, t))
        } else {
            front
        }
    }
}

/// Decodes, as trees of type `symbol_type_tree`, the samples that belong to
/// notification `handle`, in order; the others are passed over.
pub fn sample_trees(samples: &Vec<Sample>, handle: u32, symbol_type_tree: &SymbolTypeTree) -> (r: Vec<SymbolTree>)
    requires
        forall|i: int|
            0 <= i < samples@.len() && #[trigger] samples@[i].handle == handle ==> tree_in_bounds(
                samples@[i].data@.len() as int,
                symbol_type_tree@,
                0,
            ),
    ensures
        r@.map_values(|t: SymbolTree| t@) == sample_trees_spec(
            samples@.map_values(|x: Sample| x@),
            handle,
            symbol_type_tree@,
        ),
{
    let ghost sv = samples@.map_values(|x: Sample| x@);
    let mut out: Vec<SymbolTree> = Vec::new();
    let mut i: usize = 0;
    while i < samples.len()
        invariant
            i <= samples@.len(),
            sv == samples@.map_values(|x: Sample| x@),
            forall|j: int|
                0 <= j < samples@.len() && #[trigger] samples@[j].handle == handle ==> tree_in_bounds(
                    samples@[j].data@.len() as int,
                    symbol_type_tree@,
                    0,
                ),
            out@.map_values(|t: SymbolTree| t@) == sample_trees_spec(
                sv.take(i as int),
                handle,
                symbol_type_tree@,
            ),
        decreases samples@.len() - i,
    {
        assert(sv.take(i + 1).drop_last() =~= sv.take(i as int));
        let ghost prev = out@;
        if samples[i].handle == handle {
            let tree = SymbolTree::from_type_tree(symbol_type_tree, samples[i].data.as_slice(), 0);
            out.push(tree);
            assert(out@.map_values(|t: SymbolTree| t@) =~= prev.map_values(|t: SymbolTree| t@).push(
                tree_of(sv[i as int].2, symbol_type_tree@),
            ));
        }
        i = i + 1;
    }
    assert(sv.take(i as int) =~= sv);
    out
}

/// The flattened maps of the samples for notification `handle`, in order.
pub open spec fn sample_maps_spec(
    samples: Seq<SampleView>,
    handle: u32,
    entries: Seq<(Seq<char>, DescriptorView)>,
) -> Seq<Seq<(Seq<char>, PrimitiveValueView)>>
    decreases samples.len(),
{
    if samples.len() == 0 {
        Seq::empty()
    } else {
        let front = sample_maps_spec(samples.drop_last(), handle, entries);
        if samples.last().0 == handle {
            front.push(seq_insert_all(Seq::empty(), decoded(entries, samples.last().2)))
        } else {
            front
        }
    }
}

/// Decodes, with the flattened type map `symbol_type_map`, the samples that
/// belong to notification `handle`, in order; the others are passed over.
pub fn sample_maps(samples: &Vec<Sample>, handle: u32, symbol_type_map: &SymbolTypeMap) -> (r: Vec<
    SymbolMap,
>)
    requires
        forall|i: int|
            0 <= i < samples@.len() && #[trigger] samples@[i].handle == handle ==> map_in_bounds(
                descriptor_map_entries(*symbol_type_map),
                samples@[i].data@,
            ),
    ensures
        r@.map_values(|m: SymbolMap| primitive_map_entries(m)) == sample_maps_spec(
            samples@.map_values(|x: Sample| x@),
            handle,
            descriptor_map_entries(*symbol_type_map),
        ),
{
    let ghost sv = samples@.map_values(|x: Sample| x@);
    let ghost te = descriptor_map_entries(*symbol_type_map);
    let mut out: Vec<SymbolMap> = Vec::new();
    let mut i: usize = 0;
    while i < samples.len()
        invariant
            i <= samples@.len(),
            sv == samples@.map_values(|x: Sample| x@),
            te == descriptor_map_entries(*symbol_type_map),
            forall|j: int|
                0 <= j < samples@.len() && #[trigger] samples@[j].handle == handle ==> map_in_bounds(
                    te,
                    samples@[j].data@,
                ),
            out@.map_values(|m: SymbolMap| primitive_map_entries(m)) == sample_maps_spec(
                sv.take(i as int),
                handle,
                te,
            ),
        decreases samples@.len() - i,
    {
        assert(sv.take(i + 1).drop_last() =~= sv.take(i as int));
        let ghost prev = out@;
        if samples[i].handle == handle {
            let map = SymbolMap::from_bytes(symbol_type_map, samples[i].data.as_slice());
            out.push(map);
            assert(out@.map_values(|m: SymbolMap| primitive_map_entries(m)) =~= prev.map_values(
                |m: SymbolMap| primitive_map_entries(m),
            ).push(seq_insert_all(Seq::empty(), decoded(te, sv[i as int].2))));
        }
        i = i + 1;
    }
    assert(sv.take(i as int) =~= sv);
    out
}

/// What a symbol receiver learned since its last step.
pub enum ReceiverEvent {
    /// A notification with these samples arrived.
    Samples(Vec<Sample>),
    /// No notification arrived in time.
    TimedOut,
    /// The notification channel is closed.
    Closed,
    /// A decoded value could not be sent: every consumer is gone.
    SendFailed,
}

/// What a symbol receiver does next.
pub enum ReceiverStep<T> {
    /// There is no notification to receive from: the PLC is not connected.
    NotConnected,
    /// Send these decoded values, in order, and keep receiving.
    Deliver(Vec<T>),
    /// Stop: the receiver has done its work.
    Finish,
    /// Stop with this error.
    Fail(&'static str),
}

/// The error of a map receiver whose notification channel failed.
pub open spec fn map_receive_error() -> &'static str {
    "Receive error while receiving from PLC notification channel."
}

/// The step of a tree receiver for notification `handle` (`None` when no
/// notification could be added): samples of that notification are decoded
/// as trees of `symbol_type_tree`; the receiver finishes when the channel
/// closes or the consumers are gone, and keeps waiting otherwise.
pub fn tree_receiver_step(handle: Option<u32>, event: ReceiverEvent, symbol_type_tree: &SymbolTypeTree) -> (r:
    ReceiverStep<SymbolTree>)
    requires
        event matches ReceiverEvent::Samples(samples) ==> forall|i: int|
            0 <= i < samples@.len() && handle == Some(#[trigger] samples@[i].handle) ==> tree_in_bounds(
                samples@[i].data@.len() as int,
                symbol_type_tree@,
                0,
            ),
    ensures
        handle is None ==> r is NotConnected,
        handle matches Some(h) ==> match event {
            ReceiverEvent::Samples(samples) => r matches ReceiverStep::Deliver(trees) && trees@.map_values(
                |t: SymbolTree| t@,
            ) == sample_trees_spec(samples@.map_values(|x: Sample| x@), h, symbol_type_tree@),
            ReceiverEvent::TimedOut => r matches ReceiverStep::Deliver(trees) && trees@.len() == 0,
            ReceiverEvent::Closed => r is Finish,
            ReceiverEvent::SendFailed => r is Finish,
        },
{
    let h = match handle {
        Some(h) => h,
        None => {
            return ReceiverStep::NotConnected;
        },
    };
    match event {
        ReceiverEvent::Samples(samples) => {
            proof {
                assert forall|i: int|
                    0 <= i < samples@.len() && #[trigger] samples@[i].handle == h implies tree_in_bounds(
                    samples@[i].data@.len() as int,
                    symbol_type_tree@,
                    0,
                ) by {
                    assert(handle == Some(samples@[i].handle));
                }
            }
            ReceiverStep::Deliver(sample_trees(&samples, h, symbol_type_tree))
        },
        ReceiverEvent::TimedOut => ReceiverStep::Deliver(Vec::new()),
        ReceiverEvent::Closed => ReceiverStep::Finish,
        ReceiverEvent::SendFailed => ReceiverStep::Finish,
    }
}

/// The step of a map receiver for notification `handle` (`None` when no
/// notification could be added): samples of that notification are decoded
/// with `symbol_type_map`; the receiver fails when no notification arrives
/// in time or the channel closes, and finishes when the consumers are gone.
pub fn map_receiver_step(handle: Option<u32>, event: ReceiverEvent, symbol_type_map: &SymbolTypeMap) -> (r:
    ReceiverStep<SymbolMap>)
    requires
        event matches ReceiverEvent::Samples(samples) ==> forall|i: int|
            0 <= i < samples@.len() && handle == Some(#[trigger] samples@[i].handle) ==> map_in_bounds(
                descriptor_map_entries(*symbol_type_map),
                samples@[i].data@,
            ),
    ensures
        handle is None ==> r is NotConnected,
        handle matches Some(h) ==> match event {
            ReceiverEvent::Samples(samples) => r matches ReceiverStep::Deliver(maps) && maps@.map_values(
                |m: SymbolMap| primitive_map_entries(m),
            ) == sample_maps_spec(
                samples@.map_values(|x: Sample| x@),
                h,
                descriptor_map_entries(*symbol_type_map),
            ),
            ReceiverEvent::TimedOut => r == ReceiverStep::<SymbolMap>::Fail(map_receive_error()),
            ReceiverEvent::Closed => r == ReceiverStep::<SymbolMap>::Fail(map_receive_error()),
            ReceiverEvent::SendFailed => r is Finish,
        },
{
    let h = match handle {
        Some(h) => h,
        None => {
            return ReceiverStep::NotConnected;
        },
    };
    match event {
        ReceiverEvent::Samples(samples) => {
            proof {
                assert forall|i: int|
                    0 <= i < samples@.len() && #[trigger] samples@[i].handle == h implies map_in_bounds(
                    descriptor_map_entries(*symbol_type_map),
                    samples@[i].data@,
                ) by {
                    assert(handle == Some(samples@[i].handle));
                }
            }
            ReceiverStep::Deliver(sample_maps(&samples, h, symbol_type_map))
        },
        ReceiverEvent::TimedOut => ReceiverStep::Fail(
            "Receive error while receiving from PLC notification channel.",
        ),
        ReceiverEvent::Closed => ReceiverStep::Fail(
            "Receive error while receiving from PLC notification channel.",
        ),
        ReceiverEvent::SendFailed => ReceiverStep::Finish,
    }
}

} // verus!
