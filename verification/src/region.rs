//! Suburbs, the groups they are cut in, the municipalities they belong to, and
//! the state of a municipality at one instant: which suburbs are cut, which
//! are not, and what that means for each feature of its map.

use crate::clock;
use crate::clock::{day_of_month, valid_instant};
use crate::forecast::applies;
use crate::schedule::{StageTimes, TimeScheduleEntity};
use std::collections::HashMap;
use vstd::prelude::*;

verus! {

broadcast use vstd::std_specs::hash::group_hash_axioms;

/// A rotation bucket: the suburbs that are cut together.
#[derive(Debug, Clone, PartialEq, Eq)]
pub struct GroupEntity {
    pub id: u128,
    pub number: i32,
    pub suburbs: Vec<u128>,
}

/// A suburb, with the identifiers of the map features that show it.
#[derive(Debug, Clone, PartialEq, Eq)]
pub struct SuburbEntity {
    pub id: u128,
    pub municipality: u128,
    pub name: String,
    pub geometry: Vec<i32>,
}

/// A municipality, with the identifiers of the features of its map.
#[derive(Debug, Clone, PartialEq, Eq)]
pub struct MunicipalityEntity {
    pub id: u128,
    pub name: String,
    pub geometry: Vec<i32>,
}

/// The kind of outline that a feature of the map has.
#[derive(Debug, Clone, Copy, PartialEq, Eq, Structural)]
pub enum GeometryType {
    Polygon,
    MultiPolygon,
}

/// Asks for the suburb that shows the feature `suburb_id` of the map.
#[derive(Debug, Clone, Copy)]
pub struct SuburbStatsRequest {
    pub suburb_id: u32,
}

/// What is known of the power at a feature of the map.
#[derive(Debug, Clone, Copy, PartialEq, Eq, Structural)]
pub enum PowerStatus {
    /// A suburb that is cut shows the feature.
    Off,
    /// No suburb that is cut shows the feature, and one that is not cut does.
    On,
    /// No suburb shows the feature.
    Undefined,
}

/// The state of a municipality at one instant: the suburbs that are cut, in
/// the order in which their groups claimed them, the other suburbs, and the
/// status of each feature of the map, in the order of the map.
#[derive(Debug)]
pub struct RegionStatus<'a> {
    pub off: Vec<&'a SuburbEntity>,
    pub on: Vec<&'a SuburbEntity>,
    pub power_status: Vec<PowerStatus>,
}

impl PowerStatus {
    /// The word that a map shows for the status.
    pub fn as_str(&self) -> (word: &'static str)
        ensures
            *self == PowerStatus::Off ==> word == "off",
            *self == PowerStatus::On ==> word == "on",
            *self == PowerStatus::Undefined ==> word == "undefined",
    {
        match self {
            PowerStatus::Off => "off",
            PowerStatus::On => "on",
            PowerStatus::Undefined => "undefined",
        }
    }
}

/// The groups that the stages at or below `stage` cut on the given day of the
/// month, in the order of the stages. A stage without a slot for the day cuts none.
pub open spec fn stage_groups(stages: Seq<StageTimes>, stage: int, day: int) -> Seq<u128>
    decreases stages.len(),
{
    if stages.len() == 0 {
        Seq::empty()
    } else {
        let before = stage_groups(stages.drop_last(), stage, day);
        match stages.last().group_on(day) {
            Some(group) => if stages.last().stage <= stage {
                before.push(group)
            } else {
                before
            },
            None => before,
        }
    }
}

/// The groups that are cut at `instant` while `stage` is in force: those of
/// every schedule whose window holds the instant, in the order of the schedules.
pub open spec fn cut_groups(schedules: Seq<TimeScheduleEntity>, stage: int, instant: int) -> Seq<
    u128,
>
    decreases schedules.len(),
{
    if schedules.len() == 0 {
        Seq::empty()
    } else {
        let before = cut_groups(schedules.drop_last(), stage, instant);
        if schedules.last().is_within(instant) {
            before + stage_groups(schedules.last().stages@, stage, day_of_month(instant))
        } else {
            before
        }
    }
}

/// The groups that are cut at `time` while `stage` is in force, one entry for
/// each stage of each schedule that cuts.
pub fn affected_groups(schedules: &Vec<TimeScheduleEntity>, stage: i32, time: i64) -> (groups: Vec<
    u128,
>)
    requires
        valid_instant(time as int),
    ensures
        groups@ == cut_groups(schedules@, stage as int, time as int),
{
    let day: u32 = clock::day(time);
    let mut groups: Vec<u128> = Vec::new();
    let mut i: usize = 0;
    while i < schedules.len()
        invariant
            i <= schedules@.len(),
            valid_instant(time as int),
            day as int == day_of_month(time as int),
            groups@ == cut_groups(schedules@.take(i as int), stage as int, time as int),
        decreases schedules@.len() - i,
    {
        let ghost before = groups@;
        assert(schedules@.take(i + 1).drop_last() =~= schedules@.take(i as int));
        if schedules[i].is_within_timeslot(time) {
            let stages = &schedules[i].stages;
            let mut b: usize = 0;
            while b < stages.len()
                invariant
                    b <= stages@.len(),
                    groups@ == before + stage_groups(stages@.take(b as int), stage as int, day as int),
                decreases stages@.len() - b,
            {
                assert(stages@.take(b + 1).drop_last() =~= stages@.take(b as int));
                if stages[b].stage <= stage {
                    match stages[b].group_on_day(day) {
                        Some(group) => {
                            groups.push(group);
                        },
                        None => {},
                    }
                }
                assert(groups@ =~= before + stage_groups(
                    stages@.take(b + 1),
                    stage as int,
                    day as int,
                ));
                b += 1;
            }
            assert(stages@.take(stages@.len() as int) =~= stages@);
        }
        i += 1;
    }
    assert(schedules@.take(schedules@.len() as int) =~= schedules@);
    groups
}

/// The position that each suburb identifier stands for. Where two suburbs
/// carry one identifier, it stands for the later one.
pub open spec fn suburb_index(suburbs: Seq<SuburbEntity>) -> Map<u128, usize>
    decreases suburbs.len(),
{
    if suburbs.len() == 0 {
        Map::empty()
    } else {
        suburb_index(suburbs.drop_last()).insert(
            suburbs.last().id,
            (suburbs.len() - 1) as usize,
        )
    }
}

/// The index and the claimed positions after the members of one group have
/// claimed their suburbs: a member that the index still knows leaves the index
/// and its position is claimed.
pub open spec fn claim_members(
    members: Seq<u128>,
    claim: (Map<u128, usize>, Seq<usize>),
) -> (Map<u128, usize>, Seq<usize>)
    decreases members.len(),
{
    if members.len() == 0 {
        claim
    } else {
        let before = claim_members(members.drop_last(), claim);
        let member = members.last();
        if before.0.contains_key(member) {
            (before.0.remove(member), before.1.push(before.0[member]))
        } else {
            before
        }
    }
}

/// The index and the claimed positions after the groups among `wanted` have
/// claimed their suburbs, in the order of `groups`.
pub open spec fn claim_groups(
    groups: Seq<GroupEntity>,
    wanted: Seq<u128>,
    claim: (Map<u128, usize>, Seq<usize>),
) -> (Map<u128, usize>, Seq<usize>)
    decreases groups.len(),
{
    if groups.len() == 0 {
        claim
    } else {
        let before = claim_groups(groups.drop_last(), wanted, claim);
        if wanted.contains(groups.last().id) {
            claim_members(groups.last().suburbs@, before)
        } else {
            before
        }
    }
}

/// The positions below `upto` that the index still stands for, in order.
pub open spec fn unclaimed(suburbs: Seq<SuburbEntity>, index: Map<u128, usize>, upto: int) -> Seq<
    usize,
>
    decreases upto,
{
    if upto <= 0 {
        Seq::empty()
    } else {
        let before = unclaimed(suburbs, index, upto - 1);
        let id = suburbs[upto - 1].id;
        if index.contains_key(id) && index[id] == upto - 1 {
            before.push((upto - 1) as usize)
        } else {
            before
        }
    }
}

/// What is left of the index, and the positions claimed, once the groups that
/// are cut at `instant` under `stage` have claimed their suburbs.
pub open spec fn region_claim(
    schedules: Seq<TimeScheduleEntity>,
    suburbs: Seq<SuburbEntity>,
    groups: Seq<GroupEntity>,
    stage: int,
    instant: int,
) -> (Map<u128, usize>, Seq<usize>) {
    claim_groups(groups, cut_groups(schedules, stage, instant), (suburb_index(suburbs), Seq::empty()))
}

/// The positions of the suburbs that are cut, in the order in which they were claimed.
pub open spec fn region_off(
    schedules: Seq<TimeScheduleEntity>,
    suburbs: Seq<SuburbEntity>,
    groups: Seq<GroupEntity>,
    stage: int,
    instant: int,
) -> Seq<usize> {
    region_claim(schedules, suburbs, groups, stage, instant).1
}

/// The positions of the suburbs that are not cut, in the order of `suburbs`.
pub open spec fn region_on(
    schedules: Seq<TimeScheduleEntity>,
    suburbs: Seq<SuburbEntity>,
    groups: Seq<GroupEntity>,
    stage: int,
    instant: int,
) -> Seq<usize> {
    unclaimed(
        suburbs,
        region_claim(schedules, suburbs, groups, stage, instant).0,
        suburbs.len() as int,
    )
}

/// One of the suburbs at `positions` shows the feature.
pub open spec fn shown_by(suburbs: Seq<SuburbEntity>, positions: Seq<usize>, feature: i32) -> bool {
    exists|p: int|
        0 <= p < positions.len() && suburbs[#[trigger] positions[p] as int].geometry@.contains(
            feature,
        )
}

/// The status of a feature: off where a cut suburb shows it, else on where
/// another suburb shows it, else undefined.
pub open spec fn status_of(
    suburbs: Seq<SuburbEntity>,
    off: Seq<usize>,
    on: Seq<usize>,
    feature: i32,
) -> PowerStatus {
    if shown_by(suburbs, off, feature) {
        PowerStatus::Off
    } else if shown_by(suburbs, on, feature) {
        PowerStatus::On
    } else {
        PowerStatus::Undefined
    }
}

/// The suburbs at the given positions.
pub open spec fn picked(
    suburbs: Seq<SuburbEntity>,
    positions: Seq<usize>,
    chosen: Seq<&SuburbEntity>,
) -> bool {
    &&& chosen.len() == positions.len()
    &&& forall|p: int|
        0 <= p < positions.len() ==> (#[trigger] positions[p]) < suburbs.len() && *chosen[p]
            == suburbs[positions[p] as int]
}

/// Whether `id` is one of `ids`.
pub fn contains_id(ids: &Vec<u128>, id: u128) -> (found: bool)
    ensures
        found == ids@.contains(id),
{
    let mut i: usize = 0;
    while i < ids.len()
        invariant
            i <= ids@.len(),
            forall|k: int| 0 <= k < i ==> ids@[k] != id,
        decreases ids@.len() - i,
    {
        if ids[i] == id {
            return true;
        }
        i += 1;
    }
    false
}

/// Whether one of the suburbs shows the feature.
fn any_shows(suburbs: &Vec<&SuburbEntity>, feature: i32) -> (found: bool)
    ensures
        found == exists|p: int|
            0 <= p < suburbs@.len() && (#[trigger] suburbs@[p]).geometry@.contains(feature),
{
    let mut p: usize = 0;
    while p < suburbs.len()
        invariant
            p <= suburbs@.len(),
            forall|q: int| 0 <= q < p ==> !(#[trigger] suburbs@[q]).geometry@.contains(feature),
        decreases suburbs@.len() - p,
    {
        let shows = &suburbs[p].geometry;
        let mut f: usize = 0;
        while f < shows.len()
            invariant
                f <= shows@.len(),
                p < suburbs@.len(),
                shows@ == suburbs@[p as int].geometry@,
                forall|g: int| 0 <= g < f ==> shows@[g] != feature,
            decreases shows@.len() - f,
        {
            if shows[f] == feature {
                assert(suburbs@[p as int].geometry@[f as int] == feature);
                return true;
            }
            f += 1;
        }
        p += 1;
    }
    false
}

impl MunicipalityEntity {
    /// The state of the municipality at `time` while `stage` is in force.
    ///
    /// `schedules` and `suburbs` are those of the municipality; `groups` holds
    /// at least the groups that `affected_groups` names. Every group that is
    /// cut claims its members among the suburbs, each suburb once; what no
    /// group claims has power.
    pub fn get_regions_at_time<'a>(
        &self,
        stage: i32,
        time: i64,
        schedules: &Vec<TimeScheduleEntity>,
        suburbs: &'a Vec<SuburbEntity>,
        groups: &Vec<GroupEntity>,
    ) -> (status: RegionStatus<'a>)
        requires
            valid_instant(time as int),
        ensures
            picked(
                suburbs@,
                region_off(schedules@, suburbs@, groups@, stage as int, time as int),
                status.off@,
            ),
            picked(
                suburbs@,
                region_on(schedules@, suburbs@, groups@, stage as int, time as int),
                status.on@,
            ),
            status.power_status@.len() == self.geometry@.len(),
            forall|f: int|
                0 <= f < self.geometry@.len() ==> #[trigger] status.power_status@[f] == status_of(
                    suburbs@,
                    region_off(schedules@, suburbs@, groups@, stage as int, time as int),
                    region_on(schedules@, suburbs@, groups@, stage as int, time as int),
                    self.geometry@[f],
                ),
    {
        let wanted = affected_groups(schedules, stage, time);
        let total: usize = suburbs.len();
        let mut index: HashMap<u128, usize> = HashMap::new();
        let mut k: usize = 0;
        while k < total
            invariant
                k <= total,
                total == suburbs@.len(),
                index@ == suburb_index(suburbs@.take(k as int)),
                forall|id: u128| index@.contains_key(id) ==> #[trigger] index@[id] < k,
            decreases total - k,
        {
            assert(suburbs@.take(k + 1).drop_last() =~= suburbs@.take(k as int));
            index.insert(suburbs[k].id, k);
            k += 1;
        }
        assert(suburbs@.take(total as int) =~= suburbs@);

        let ghost start = (suburb_index(suburbs@), Seq::<usize>::empty());
        let ghost mut claimed: Seq<usize> = Seq::empty();
        let mut off: Vec<&'a SuburbEntity> = Vec::new();
        let mut g: usize = 0;
        while g < groups.len()
            invariant
                g <= groups@.len(),
                total == suburbs@.len(),
                (index@, claimed) == claim_groups(groups@.take(g as int), wanted@, start),
                forall|id: u128| index@.contains_key(id) ==> #[trigger] index@[id] < total,
                picked(suburbs@, claimed, off@),
            decreases groups@.len() - g,
        {
            assert(groups@.take(g + 1).drop_last() =~= groups@.take(g as int));
            if contains_id(&wanted, groups[g].id) {
                let members = &groups[g].suburbs;
                let ghost before = (index@, claimed);
                let mut m: usize = 0;
                while m < members.len()
                    invariant
                        m <= members@.len(),
                        total == suburbs@.len(),
                        (index@, claimed) == claim_members(members@.take(m as int), before),
                        forall|id: u128| index@.contains_key(id) ==> #[trigger] index@[id] < total,
                        picked(suburbs@, claimed, off@),
                    decreases members@.len() - m,
                {
                    assert(members@.take(m + 1).drop_last() =~= members@.take(m as int));
                    let member: u128 = members[m];
                    match index.remove(&member) {
                        Some(position) => {
                            off.push(&suburbs[position]);
                            proof {
                                claimed = claimed.push(position);
                            }
                        },
                        None => {},
                    }
                    m += 1;
                }
                assert(members@.take(members@.len() as int) =~= members@);
            }
            g += 1;
        }
        assert(groups@.take(groups@.len() as int) =~= groups@);

        let ghost kept_index = index@;
        let ghost mut kept: Seq<usize> = Seq::empty();
        let mut on: Vec<&'a SuburbEntity> = Vec::new();
        let mut k: usize = 0;
        while k < total
            invariant
                k <= total,
                total == suburbs@.len(),
                index@ == kept_index,
                kept == unclaimed(suburbs@, kept_index, k as int),
                picked(suburbs@, kept, on@),
            decreases total - k,
        {
            let known = index.get(&suburbs[k].id);
            match known {
                Some(position) => {
                    if *position == k {
                        on.push(&suburbs[k]);
                        proof {
                            kept = kept.push(k);
                        }
                    }
                },
                None => {},
            }
            k += 1;
        }

        let mut power_status: Vec<PowerStatus> = Vec::new();
        let mut f: usize = 0;
        while f < self.geometry.len()
            invariant
                f <= self.geometry@.len(),
                power_status@.len() == f,
                picked(suburbs@, claimed, off@),
                picked(suburbs@, kept, on@),
                forall|e: int|
                    0 <= e < f ==> #[trigger] power_status@[e] == status_of(
                        suburbs@,
                        claimed,
                        kept,
                        self.geometry@[e],
                    ),
            decreases self.geometry@.len() - f,
        {
            let feature: i32 = self.geometry[f];
            let is_off = any_shows(&off, feature);
            let is_on = any_shows(&on, feature);
            proof {
                lemma_shown_by(suburbs@, claimed, off@, feature);
                lemma_shown_by(suburbs@, kept, on@, feature);
            }
            let status = if is_off {
                PowerStatus::Off
            } else if is_on {
                PowerStatus::On
            } else {
                PowerStatus::Undefined
            };
            power_status.push(status);
            f += 1;
        }
        RegionStatus { off, on, power_status }
    }
}

/// Suburbs picked at positions show a feature exactly where one at those positions does.
proof fn lemma_shown_by(
    suburbs: Seq<SuburbEntity>,
    positions: Seq<usize>,
    chosen: Seq<&SuburbEntity>,
    feature: i32,
)
    requires
        picked(suburbs, positions, chosen),
    ensures
        shown_by(suburbs, positions, feature) <==> exists|p: int|
            0 <= p < chosen.len() && (#[trigger] chosen[p]).geometry@.contains(feature),
{
    if shown_by(suburbs, positions, feature) {
        let p = choose|p: int|
            0 <= p < positions.len() && suburbs[#[trigger] positions[p] as int].geometry@.contains(
                feature,
            );
        assert(chosen[p].geometry@.contains(feature));
    }
    if exists|p: int| 0 <= p < chosen.len() && (#[trigger] chosen[p]).geometry@.contains(feature) {
        let p = choose|p: int|
            0 <= p < chosen.len() && (#[trigger] chosen[p]).geometry@.contains(feature);
        assert(suburbs[positions[p] as int].geometry@.contains(feature));
    }
}

/// One of the suburbs at `positions` carries the identifier.
pub open spec fn holds_id(suburbs: Seq<SuburbEntity>, positions: Seq<usize>, id: u128) -> bool {
    exists|p: int| 0 <= p < positions.len() && suburbs[#[trigger] positions[p] as int].id == id
}

/// Every identifier of the index stands for a suburb that carries it.
spec fn index_sound(suburbs: Seq<SuburbEntity>, index: Map<u128, usize>) -> bool {
    forall|id: u128| #[trigger]
        index.contains_key(id) ==> index[id] < suburbs.len() && suburbs[index[id] as int].id == id
}

/// What claiming keeps true: the index only loses identifiers, the claimed
/// positions are those that it lost, and none is claimed twice.
spec fn claim_kept(
    suburbs: Seq<SuburbEntity>,
    initial: Map<u128, usize>,
    claim: (Map<u128, usize>, Seq<usize>),
) -> bool {
    &&& forall|id: u128| #[trigger]
        claim.0.contains_key(id) ==> initial.contains_key(id) && claim.0[id] == initial[id]
    &&& forall|p: int|
        0 <= p < claim.1.len() ==> (#[trigger] claim.1[p]) < suburbs.len() && initial.contains_key(
            suburbs[claim.1[p] as int].id,
        ) && initial[suburbs[claim.1[p] as int].id] == claim.1[p] && !claim.0.contains_key(
            suburbs[claim.1[p] as int].id,
        )
    &&& forall|id: u128| #[trigger]
        initial.contains_key(id) && !claim.0.contains_key(id) ==> holds_id(suburbs, claim.1, id)
    &&& forall|p: int, q: int|
        0 <= p < q < claim.1.len() ==> #[trigger] claim.1[p] != #[trigger] claim.1[q]
}

proof fn lemma_suburb_index(suburbs: Seq<SuburbEntity>)
    requires
        suburbs.len() <= usize::MAX,
    ensures
        index_sound(suburbs, suburb_index(suburbs)),
        forall|k: int|
            0 <= k < suburbs.len() ==> suburb_index(suburbs).contains_key(
                (#[trigger] suburbs[k]).id,
            ),
    decreases suburbs.len(),
{
    if suburbs.len() > 0 {
        let front = suburbs.drop_last();
        lemma_suburb_index(front);
        assert forall|k: int| 0 <= k < suburbs.len() implies suburb_index(suburbs).contains_key(
            (#[trigger] suburbs[k]).id,
        ) by {
            if k < front.len() {
                assert(front[k] == suburbs[k]);
            }
        }
        assert forall|id: u128| #[trigger]
            suburb_index(suburbs).contains_key(id) implies suburb_index(suburbs)[id]
            < suburbs.len() && suburbs[suburb_index(suburbs)[id] as int].id == id by {
            if id != suburbs.last().id {
                assert(suburb_index(front).contains_key(id));
                assert(front[suburb_index(front)[id] as int] == suburbs[suburb_index(front)[id] as int]);
            }
        }
    }
}

proof fn lemma_claim_members(
    suburbs: Seq<SuburbEntity>,
    initial: Map<u128, usize>,
    members: Seq<u128>,
    claim: (Map<u128, usize>, Seq<usize>),
)
    requires
        index_sound(suburbs, initial),
        claim_kept(suburbs, initial, claim),
    ensures
        claim_kept(suburbs, initial, claim_members(members, claim)),
    decreases members.len(),
{
    if members.len() > 0 {
        lemma_claim_members(suburbs, initial, members.drop_last(), claim);
        let before = claim_members(members.drop_last(), claim);
        let member = members.last();
        if before.0.contains_key(member) {
            let after = claim_members(members, claim);
            let position = before.0[member];
            assert(after.1.last() == position);
            assert forall|id: u128| #[trigger]
                initial.contains_key(id) && !after.0.contains_key(id) implies holds_id(
                suburbs,
                after.1,
                id,
            ) by {
                if id == member {
                    assert(suburbs[after.1[after.1.len() - 1] as int].id == id);
                } else {
                    assert(holds_id(suburbs, before.1, id));
                    let p = choose|p: int|
                        0 <= p < before.1.len() && suburbs[#[trigger] before.1[p] as int].id == id;
                    assert(suburbs[after.1[p] as int].id == id);
                }
            }
            assert forall|p: int, q: int| 0 <= p < q < after.1.len() implies #[trigger] after.1[p]
                != #[trigger] after.1[q] by {
                if q == after.1.len() - 1 {
                    assert(after.1[p] == before.1[p]);
                    assert(!before.0.contains_key(suburbs[before.1[p] as int].id));
                } else {
                    assert(after.1[p] == before.1[p]);
                    assert(after.1[q] == before.1[q]);
                }
            }
            assert forall|p: int| 0 <= p < after.1.len() implies (#[trigger] after.1[p])
                < suburbs.len() && initial.contains_key(suburbs[after.1[p] as int].id)
                && initial[suburbs[after.1[p] as int].id] == after.1[p] && !after.0.contains_key(
                suburbs[after.1[p] as int].id,
            ) by {
                if p < before.1.len() {
                    assert(after.1[p] == before.1[p]);
                }
            }
        }
    }
}

proof fn lemma_claim_groups(
    suburbs: Seq<SuburbEntity>,
    initial: Map<u128, usize>,
    groups: Seq<GroupEntity>,
    wanted: Seq<u128>,
    claim: (Map<u128, usize>, Seq<usize>),
)
    requires
        index_sound(suburbs, initial),
        claim_kept(suburbs, initial, claim),
    ensures
        claim_kept(suburbs, initial, claim_groups(groups, wanted, claim)),
    decreases groups.len(),
{
    if groups.len() > 0 {
        lemma_claim_groups(suburbs, initial, groups.drop_last(), wanted, claim);
        if wanted.contains(groups.last().id) {
            lemma_claim_members(
                suburbs,
                initial,
                groups.last().suburbs@,
                claim_groups(groups.drop_last(), wanted, claim),
            );
        }
    }
}

proof fn lemma_unclaimed(suburbs: Seq<SuburbEntity>, index: Map<u128, usize>, upto: int)
    requires
        0 <= upto <= suburbs.len(),
    ensures
        forall|q: int|
            0 <= q < unclaimed(suburbs, index, upto).len() ==> (#[trigger] unclaimed(
                suburbs,
                index,
                upto,
            )[q]) < upto && index.contains_key(suburbs[unclaimed(suburbs, index, upto)[q] as int].id)
                && index[suburbs[unclaimed(suburbs, index, upto)[q] as int].id] == unclaimed(
                suburbs,
                index,
                upto,
            )[q],
        forall|k: int|
            0 <= k < upto && index.contains_key((#[trigger] suburbs[k]).id) && index[suburbs[k].id]
                == k ==> holds_id(suburbs, unclaimed(suburbs, index, upto), suburbs[k].id),
        forall|p: int, q: int|
            0 <= p < q < unclaimed(suburbs, index, upto).len() ==> (#[trigger] unclaimed(
                suburbs,
                index,
                upto,
            )[p]) < (#[trigger] unclaimed(suburbs, index, upto)[q]),
    decreases upto,
{
    if upto > 0 {
        lemma_unclaimed(suburbs, index, upto - 1);
        let before = unclaimed(suburbs, index, upto - 1);
        let now = unclaimed(suburbs, index, upto);
        assert forall|k: int|
            0 <= k < upto && index.contains_key((#[trigger] suburbs[k]).id) && index[suburbs[k].id]
                == k implies holds_id(suburbs, now, suburbs[k].id) by {
            if k == upto - 1 {
                assert(suburbs[now[now.len() - 1] as int].id == suburbs[k].id);
            } else {
                assert(holds_id(suburbs, before, suburbs[k].id));
                let p = choose|p: int|
                    0 <= p < before.len() && suburbs[#[trigger] before[p] as int].id
                        == suburbs[k].id;
                assert(suburbs[now[p] as int].id == suburbs[k].id);
            }
        }
        assert forall|q: int| 0 <= q < now.len() implies (#[trigger] now[q]) < upto
            && index.contains_key(suburbs[now[q] as int].id) && index[suburbs[now[q] as int].id]
            == now[q] by {
            if q < before.len() {
                assert(now[q] == before[q]);
            }
        }
        assert forall|p: int, q: int| 0 <= p < q < now.len() implies (#[trigger] now[p]) < (
        #[trigger] now[q]) by {
            assert(now[p] == before[p]);
            if q < before.len() {
                assert(now[q] == before[q]);
            }
        }
    }
}

/// The suburbs that are cut and those that are not share no suburb, and
/// together they hold every suburb: each identifier among `suburbs` is carried
/// by a suburb of exactly one of the two, and neither lists a suburb twice.
pub proof fn lemma_region_partition(
    schedules: Seq<TimeScheduleEntity>,
    suburbs: Seq<SuburbEntity>,
    groups: Seq<GroupEntity>,
    stage: int,
    instant: int,
)
    requires
        suburbs.len() <= usize::MAX,
    ensures
        forall|p: int|
            0 <= p < region_off(schedules, suburbs, groups, stage, instant).len()
                ==> (#[trigger] region_off(schedules, suburbs, groups, stage, instant)[p])
                < suburbs.len(),
        forall|q: int|
            0 <= q < region_on(schedules, suburbs, groups, stage, instant).len()
                ==> (#[trigger] region_on(schedules, suburbs, groups, stage, instant)[q])
                < suburbs.len(),
        region_off(schedules, suburbs, groups, stage, instant).no_duplicates(),
        region_on(schedules, suburbs, groups, stage, instant).no_duplicates(),
        forall|id: u128|
            !(holds_id(suburbs, region_off(schedules, suburbs, groups, stage, instant), id)
                && holds_id(suburbs, region_on(schedules, suburbs, groups, stage, instant), id)),
        forall|k: int|
            0 <= k < suburbs.len() ==> holds_id(
                suburbs,
                region_off(schedules, suburbs, groups, stage, instant),
                (#[trigger] suburbs[k]).id,
            ) || holds_id(
                suburbs,
                region_on(schedules, suburbs, groups, stage, instant),
                suburbs[k].id,
            ),
{
    let initial = suburb_index(suburbs);
    let wanted = cut_groups(schedules, stage, instant);
    let start = (initial, Seq::<usize>::empty());
    lemma_suburb_index(suburbs);
    lemma_claim_groups(suburbs, initial, groups, wanted, start);
    let claim = claim_groups(groups, wanted, start);
    lemma_unclaimed(suburbs, claim.0, suburbs.len() as int);
    let off = region_off(schedules, suburbs, groups, stage, instant);
    let on = region_on(schedules, suburbs, groups, stage, instant);
    assert(off == claim.1);
    assert(on == unclaimed(suburbs, claim.0, suburbs.len() as int));
    assert forall|id: u128| !(holds_id(suburbs, off, id) && holds_id(suburbs, on, id)) by {
        if holds_id(suburbs, off, id) && holds_id(suburbs, on, id) {
            let p = choose|p: int| 0 <= p < off.len() && suburbs[#[trigger] off[p] as int].id == id;
            let q = choose|q: int| 0 <= q < on.len() && suburbs[#[trigger] on[q] as int].id == id;
            assert(!claim.0.contains_key(suburbs[off[p] as int].id));
            assert(claim.0.contains_key(suburbs[on[q] as int].id));
        }
    }
    assert forall|k: int| 0 <= k < suburbs.len() implies holds_id(
        suburbs,
        off,
        (#[trigger] suburbs[k]).id,
    ) || holds_id(suburbs, on, suburbs[k].id) by {
        let id = suburbs[k].id;
        assert(initial.contains_key(id));
        if claim.0.contains_key(id) {
            let at = claim.0[id] as int;
            assert(claim.0[id] == initial[id]);
            assert(suburbs[at].id == id);
            assert(holds_id(suburbs, on, suburbs[at].id));
        }
    }
}

impl SuburbEntity {
    /// The suburb shows the feature of the map.
    pub open spec fn shows(&self, feature: int) -> bool {
        exists|f: int| 0 <= f < self.geometry@.len() && #[trigger] self.geometry@[f] == feature
    }
}

impl SuburbStatsRequest {
    /// The position of the first suburb that shows the feature asked for.
    pub fn find_suburb(&self, suburbs: &Vec<SuburbEntity>) -> (found: Option<usize>)
        ensures
            match found {
                Some(at) => at < suburbs@.len() && suburbs@[at as int].shows(self.suburb_id as int)
                    && forall|k: int|
                    0 <= k < at ==> !(#[trigger] suburbs@[k]).shows(self.suburb_id as int),
                None => forall|k: int|
                    0 <= k < suburbs@.len() ==> !(#[trigger] suburbs@[k]).shows(
                        self.suburb_id as int,
                    ),
            },
    {
        let mut k: usize = 0;
        while k < suburbs.len()
            invariant
                k <= suburbs@.len(),
                forall|j: int| 0 <= j < k ==> !(#[trigger] suburbs@[j]).shows(self.suburb_id as int),
            decreases suburbs@.len() - k,
        {
            let shown = &suburbs[k].geometry;
            let mut f: usize = 0;
            while f < shown.len()
                invariant
                    f <= shown@.len(),
                    k < suburbs@.len(),
                    shown@ == suburbs@[k as int].geometry@,
                    forall|j: int|
                        0 <= j < k ==> !(#[trigger] suburbs@[j]).shows(self.suburb_id as int),
                    forall|g: int| 0 <= g < f ==> shown@[g] != self.suburb_id as int,
                decreases shown@.len() - f,
            {
                if shown[f] as i64 == self.suburb_id as i64 {
                    assert(suburbs@[k as int].geometry@[f as int] == self.suburb_id as int);
                    return Some(k);
                }
                f += 1;
            }
            k += 1;
        }
        None
    }
}

/// The stages name a group exactly where one of them, at or below `stage`,
/// has it in its slot for the day.
proof fn lemma_stage_groups(stages: Seq<StageTimes>, stage: int, day: int, group: u128)
    ensures
        stage_groups(stages, stage, day).contains(group) <==> exists|b: int|
            0 <= b < stages.len() && (#[trigger] stages[b]).stage <= stage && stages[b].group_on(day)
                == Some(group),
    decreases stages.len(),
{
    if stages.len() > 0 {
        let front = stages.drop_last();
        let last = stages.last();
        lemma_stage_groups(front, stage, day, group);
        let before = stage_groups(front, stage, day);
        let now = stage_groups(stages, stage, day);
        let named = last.stage <= stage && last.group_on(day) == Some(group);
        assert(now.contains(group) <==> before.contains(group) || named) by {
            if last.stage <= stage && last.group_on(day).is_some() {
                let added = last.group_on(day).unwrap();
                assert(now == before.push(added));
                if before.contains(group) {
                    let at = choose|at: int| 0 <= at < before.len() && before[at] == group;
                    assert(now[at] == group);
                }
                if added == group {
                    assert(now[now.len() - 1] == group);
                }
                if now.contains(group) {
                    let at = choose|at: int| 0 <= at < now.len() && now[at] == group;
                    if at < before.len() {
                        assert(before[at] == group);
                    }
                }
            }
        }
        if before.contains(group) {
            let b = choose|b: int|
                0 <= b < front.len() && (#[trigger] front[b]).stage <= stage && front[b].group_on(
                    day,
                ) == Some(group);
            assert(stages[b] == front[b]);
        }
        if named {
            assert(stages[stages.len() - 1] == last);
        }
        if exists|b: int|
            0 <= b < stages.len() && (#[trigger] stages[b]).stage <= stage && stages[b].group_on(day)
                == Some(group) {
            let b = choose|b: int|
                0 <= b < stages.len() && (#[trigger] stages[b]).stage <= stage
                    && stages[b].group_on(day) == Some(group);
            if b < front.len() {
                assert(front[b] == stages[b]);
            }
        }
    }
}

/// The groups that are cut at an instant are exactly those to which a
/// schedule applies: one whose window holds the instant and which, at or
/// below the stage in force, has the group in its slot for the day.
pub proof fn lemma_cut_groups(
    schedules: Seq<TimeScheduleEntity>,
    stage: int,
    instant: int,
    group: u128,
)
    ensures
        cut_groups(schedules, stage, instant).contains(group) <==> exists|i: int|
            0 <= i < schedules.len() && applies(#[trigger] schedules[i], stage, group, instant),
    decreases schedules.len(),
{
    if schedules.len() > 0 {
        let front = schedules.drop_last();
        let last = schedules.last();
        let day = day_of_month(instant);
        lemma_cut_groups(front, stage, instant, group);
        lemma_stage_groups(last.stages@, stage, day, group);
        let before = cut_groups(front, stage, instant);
        let added = stage_groups(last.stages@, stage, day);
        let now = cut_groups(schedules, stage, instant);
        assert(now.contains(group) <==> before.contains(group) || applies(
            last,
            stage,
            group,
            instant,
        )) by {
            if last.is_within(instant) {
                assert(now == before + added);
                if before.contains(group) {
                    let at = choose|at: int| 0 <= at < before.len() && before[at] == group;
                    assert(now[at] == group);
                }
                if added.contains(group) {
                    let at = choose|at: int| 0 <= at < added.len() && added[at] == group;
                    assert(now[before.len() + at] == group);
                }
                if now.contains(group) {
                    let at = choose|at: int| 0 <= at < now.len() && now[at] == group;
                    if at < before.len() {
                        assert(before[at] == group);
                    } else {
                        assert(added[at - before.len()] == group);
                    }
                }
            }
        }
        if before.contains(group) {
            let i = choose|i: int|
                0 <= i < front.len() && applies(#[trigger] front[i], stage, group, instant);
            assert(schedules[i] == front[i]);
        }
        if applies(last, stage, group, instant) {
            assert(schedules[schedules.len() - 1] == last);
        }
        if exists|i: int|
            0 <= i < schedules.len() && applies(#[trigger] schedules[i], stage, group, instant) {
            let i = choose|i: int|
                0 <= i < schedules.len() && applies(#[trigger] schedules[i], stage, group, instant);
            if i < front.len() {
                assert(front[i] == schedules[i]);
            }
        }
    }
}

/// A group among `groups` whose identifier is among `wanted` lists the suburb identifier.
pub open spec fn listed(groups: Seq<GroupEntity>, wanted: Seq<u128>, id: u128) -> bool {
    exists|g: int, m: int|
        0 <= g < groups.len() && wanted.contains(groups[g].id) && 0 <= m
            < groups[g].suburbs@.len() && #[trigger] groups[g].suburbs@[m] == id
}

/// One of the suburbs carries the identifier.
pub open spec fn carried(suburbs: Seq<SuburbEntity>, id: u128) -> bool {
    exists|k: int| 0 <= k < suburbs.len() && (#[trigger] suburbs[k]).id == id
}

/// After the members have claimed, the index knows what it knew before and
/// no member named.
proof fn lemma_claim_members_keys(
    members: Seq<u128>,
    claim: (Map<u128, usize>, Seq<usize>),
    id: u128,
)
    ensures
        claim_members(members, claim).0.contains_key(id) <==> claim.0.contains_key(id)
            && !members.contains(id),
    decreases members.len(),
{
    if members.len() > 0 {
        let front = members.drop_last();
        lemma_claim_members_keys(front, claim, id);
        assert(members.contains(id) <==> front.contains(id) || members.last() == id) by {
            if front.contains(id) {
                let at = choose|at: int| 0 <= at < front.len() && front[at] == id;
                assert(members[at] == id);
            }
            if members.last() == id {
                assert(members[members.len() - 1] == id);
            }
            if members.contains(id) {
                let at = choose|at: int| 0 <= at < members.len() && members[at] == id;
                if at < front.len() {
                    assert(front[at] == id);
                }
            }
        }
    }
}

/// After the groups have claimed, the index knows what it knew before and
/// no group that is cut listed.
proof fn lemma_claim_groups_keys(
    groups: Seq<GroupEntity>,
    wanted: Seq<u128>,
    claim: (Map<u128, usize>, Seq<usize>),
    id: u128,
)
    ensures
        claim_groups(groups, wanted, claim).0.contains_key(id) <==> claim.0.contains_key(id)
            && !listed(groups, wanted, id),
    decreases groups.len(),
{
    if groups.len() > 0 {
        let front = groups.drop_last();
        let last = groups.last();
        lemma_claim_groups_keys(front, wanted, claim, id);
        lemma_claim_members_keys(last.suburbs@, claim_groups(front, wanted, claim), id);
        let names = wanted.contains(last.id) && last.suburbs@.contains(id);
        assert(listed(groups, wanted, id) <==> listed(front, wanted, id) || names) by {
            if listed(front, wanted, id) {
                let (g, m) = choose|g: int, m: int|
                    0 <= g < front.len() && wanted.contains(front[g].id) && 0 <= m
                        < front[g].suburbs@.len() && #[trigger] front[g].suburbs@[m] == id;
                assert(groups[g] == front[g]);
                assert(groups[g].suburbs@[m] == id);
            }
            if names {
                let m = choose|m: int| 0 <= m < last.suburbs@.len() && last.suburbs@[m] == id;
                assert(groups[groups.len() - 1].suburbs@[m] == id);
            }
            if listed(groups, wanted, id) {
                let (g, m) = choose|g: int, m: int|
                    0 <= g < groups.len() && wanted.contains(groups[g].id) && 0 <= m
                        < groups[g].suburbs@.len() && #[trigger] groups[g].suburbs@[m] == id;
                if g < front.len() {
                    assert(front[g] == groups[g]);
                    assert(front[g].suburbs@[m] == id);
                } else {
                    assert(last.suburbs@[m] == id);
                }
            }
        }
    }
}

/// Which suburbs are cut and which are not: an identifier that a suburb
/// carries stands among the suburbs that are cut exactly where a group that is
/// cut at the instant lists it, and among the others exactly where none does.
pub proof fn lemma_region_off(
    schedules: Seq<TimeScheduleEntity>,
    suburbs: Seq<SuburbEntity>,
    groups: Seq<GroupEntity>,
    stage: int,
    instant: int,
    id: u128,
)
    requires
        suburbs.len() <= usize::MAX,
    ensures
        holds_id(suburbs, region_off(schedules, suburbs, groups, stage, instant), id) <==> carried(
            suburbs,
            id,
        ) && listed(groups, cut_groups(schedules, stage, instant), id),
        holds_id(suburbs, region_on(schedules, suburbs, groups, stage, instant), id) <==> carried(
            suburbs,
            id,
        ) && !listed(groups, cut_groups(schedules, stage, instant), id),
{
    let initial = suburb_index(suburbs);
    let wanted = cut_groups(schedules, stage, instant);
    let start = (initial, Seq::<usize>::empty());
    lemma_suburb_index(suburbs);
    lemma_claim_groups(suburbs, initial, groups, wanted, start);
    lemma_claim_groups_keys(groups, wanted, start, id);
    let claim = claim_groups(groups, wanted, start);
    lemma_unclaimed(suburbs, claim.0, suburbs.len() as int);
    let off = region_off(schedules, suburbs, groups, stage, instant);
    let on = region_on(schedules, suburbs, groups, stage, instant);
    assert(carried(suburbs, id) <==> initial.contains_key(id)) by {
        if initial.contains_key(id) {
            assert(suburbs[initial[id] as int].id == id);
        }
        if carried(suburbs, id) {
            let k = choose|k: int| 0 <= k < suburbs.len() && (#[trigger] suburbs[k]).id == id;
            assert(initial.contains_key(suburbs[k].id));
        }
    }
    assert(holds_id(suburbs, off, id) <==> initial.contains_key(id) && !claim.0.contains_key(id))
        by {
        if holds_id(suburbs, off, id) {
            let p = choose|p: int| 0 <= p < off.len() && suburbs[#[trigger] off[p] as int].id == id;
            assert(!claim.0.contains_key(suburbs[off[p] as int].id));
        }
    }
    assert(holds_id(suburbs, on, id) <==> claim.0.contains_key(id)) by {
        if holds_id(suburbs, on, id) {
            let q = choose|q: int| 0 <= q < on.len() && suburbs[#[trigger] on[q] as int].id == id;
            assert(claim.0.contains_key(suburbs[on[q] as int].id));
        }
        if claim.0.contains_key(id) {
            let at = claim.0[id] as int;
            assert(claim.0[id] == initial[id]);
            assert(suburbs[at].id == id);
            assert(holds_id(suburbs, on, suburbs[at].id));
        }
    }
}

} // verus!
