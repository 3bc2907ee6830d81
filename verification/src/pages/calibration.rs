//! The page of the calibration.

use crate::message;
use crate::message::Message;
use crate::model;
use crate::model::ControllerCalib;
use crate::protocol;
use crate::text;
use vstd::prelude::*;

verus! {

/// The axis can be calibrated under an index: its name is a known one.
pub open spec fn has_index(axis: &'static str) -> bool {
    exists|index: u8| protocol::names_axis(axis@, index)
}

/// The axes that can be calibrated, in their order.
pub open spec fn offered(axes: Seq<&'static str>) -> Seq<&'static str>
    decreases axes.len(),
{
    if axes.len() == 0 {
        Seq::empty()
    } else {
        let before = offered(axes.drop_last());
        if has_index(axes.last()) {
            before.push(axes.last())
        } else {
            before
        }
    }
}

/// The rows name the axes, each with its index.
pub open spec fn lists_axes(rows: Seq<(&'static str, u8)>, axes: Seq<&'static str>) -> bool {
    &&& rows.len() == axes.len()
    &&& forall|i: int|
        0 <= i < rows.len() ==> (#[trigger] rows[i]).0 == axes[i] && protocol::names_axis(
            rows[i].0@,
            rows[i].1,
        )
}

/// The axes of a controller that can be calibrated, with their indexes; an axis
/// without an index is left out.
pub fn axis_rows(c: &ControllerCalib) -> (r: Vec<(&'static str, u8)>)
    ensures
        lists_axes(r@, offered(c.axes@)),
{
    let mut out: Vec<(&'static str, u8)> = Vec::new();
    let mut i: usize = 0;
    while i < c.axes.len()
        invariant
            i <= c.axes.len(),
            lists_axes(out@, offered(c.axes@.take(i as int))),
        decreases c.axes.len() - i,
    {
        let ghost next = c.axes@.take(i + 1);
        assert(next.drop_last() == c.axes@.take(i as int));
        assert(next.last() == c.axes@[i as int]);
        let axis: &'static str = c.axes[i];
        if let Some(index) = protocol::axis_name_index(axis) {
            assert(has_index(axis));
            out.push((axis, index));
        }
        i += 1;
    }
    assert(c.axes@.take(i as int) == c.axes@);
    out
}

/// A word of the calibration: its offset and its bytes.
pub open spec fn region_row(word: (u32, Option<[u8; 4]>)) -> (Seq<char>, Seq<char>) {
    (text::hex_prefixed(word.0 as nat, 4), model::word_text(model::word_bytes(word.1)))
}

/// The words of the calibration as they are shown.
pub fn region_rows(c: &ControllerCalib) -> (r: Vec<(String, String)>)
    ensures
        r@.len() == c.region@.len(),
        forall|i: int|
            0 <= i < r@.len() ==> ((#[trigger] r@[i]).0@, r@[i].1@) == region_row(c.region@[i]),
{
    let mut out: Vec<(String, String)> = Vec::new();
    let mut i: usize = 0;
    while i < c.region.len()
        invariant
            i <= c.region.len(),
            out.len() == i,
            forall|k: int|
                0 <= k < i ==> ((#[trigger] out@[k]).0@, out@[k].1@) == region_row(c.region@[k]),
        decreases c.region.len() - i,
    {
        let word: (u32, Option<[u8; 4]>) = c.region[i];
        out.push((text::hex_prefixed_text(word.0 as u64, 4), model::word_to_text(&word.1)));
        i += 1;
    }
    out
}

/// What is said when the calibration of an axis ends: whether the joystick recorded
/// something, which is told by the words that changed.
pub fn finished_msg(changed: usize, axis: &str) -> (r: Message)
    ensures
        r@ == message::said(
            if changed > 0 {
                "Calibration of the {} axis complete"@
            } else {
                "{} axis: no change recorded"@
            },
            seq![axis@],
        ),
{
    proof {
        reveal_strlit("Calibration of the {} axis complete");
        reveal_strlit("{} axis: no change recorded");
    }
    if changed > 0 {
        Message::about("Calibration of the {} axis complete", axis)
    } else {
        Message::about("{} axis: no change recorded", axis)
    }
}

} // verus!
