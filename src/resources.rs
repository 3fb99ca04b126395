//! The set of peripheral handles that a phase operator needs, with its
//! validated completion and the merge that moves handles between sets.
use vstd::prelude::*;

verus! {

/// One slot of a resource set.
#[derive(Clone, Copy, Debug, PartialEq, Eq, Structural)]
pub enum Slot {
    LeftEncoder,
    RightEncoder,
    Imu,
    LeftMotor,
    RightMotor,
    DistanceSensors,
    WallManager,
}

/// Which slots a phase operator takes from a resource set; what it does
/// not take is left over.
#[derive(Clone, Copy, Debug, PartialEq, Eq, Structural)]
pub struct Claim {
    pub left_encoder: bool,
    pub right_encoder: bool,
    pub imu: bool,
    pub left_motor: bool,
    pub right_motor: bool,
    pub distance_sensors: bool,
    pub wall_manager: bool,
}

/// What a resource set holds: each single slot, the distance sensors by
/// index, and the map-knowledge handle.
pub struct ResourceView<E, I, M, D, W> {
    pub left_encoder: Option<E>,
    pub right_encoder: Option<E>,
    pub imu: Option<I>,
    pub left_motor: Option<M>,
    pub right_motor: Option<M>,
    pub distance_sensors: Seq<Option<D>>,
    pub wall_manager: Option<W>,
}

/// The sensor at index `i`, if there is one.
pub open spec fn sensor_at<D>(s: Seq<Option<D>>, i: int) -> Option<D> {
    if 0 <= i < s.len() {
        s[i]
    } else {
        None
    }
}

/// The number of sensors among the first `n` indices.
pub open spec fn sensors_below<D>(s: Seq<Option<D>>, n: int) -> nat
    decreases n,
{
    if n <= 0 {
        0
    } else {
        sensors_below(s, n - 1) + if sensor_at(s, n - 1) is Some {
            1nat
        } else {
            0nat
        }
    }
}

pub open spec fn sensor_count<D>(s: Seq<Option<D>>) -> nat {
    sensors_below(s, s.len() as int)
}

pub open spec fn slot_count<T>(o: Option<T>) -> nat {
    if o is Some {
        1
    } else {
        0
    }
}

/// The number of peripherals held: encoders, motors, the inertial sensor and
/// the distance sensors.
pub open spec fn peripheral_count<E, I, M, D, W>(v: ResourceView<E, I, M, D, W>) -> nat {
    slot_count(v.left_encoder) + slot_count(v.right_encoder) + slot_count(v.imu) + slot_count(
        v.left_motor,
    ) + slot_count(v.right_motor) + sensor_count(v.distance_sensors)
}

/// The empty set.
pub open spec fn empty_view<E, I, M, D, W>() -> ResourceView<E, I, M, D, W> {
    ResourceView {
        left_encoder: None,
        right_encoder: None,
        imu: None,
        left_motor: None,
        right_motor: None,
        distance_sensors: Seq::empty(),
        wall_manager: None,
    }
}

pub open spec fn sensors_complete<D>(s: Seq<Option<D>>) -> bool {
    s.len() > 0 && forall|i: int| 0 <= i < s.len() ==> (#[trigger] s[i]) is Some
}

/// The first slot, in declaration order, that is not filled.
pub open spec fn first_missing<E, I, M, D, W>(v: ResourceView<E, I, M, D, W>) -> Option<Slot> {
    if v.left_encoder is None {
        Some(Slot::LeftEncoder)
    } else if v.right_encoder is None {
        Some(Slot::RightEncoder)
    } else if v.imu is None {
        Some(Slot::Imu)
    } else if v.left_motor is None {
        Some(Slot::LeftMotor)
    } else if v.right_motor is None {
        Some(Slot::RightMotor)
    } else if !sensors_complete(v.distance_sensors) {
        Some(Slot::DistanceSensors)
    } else if v.wall_manager is None {
        Some(Slot::WallManager)
    } else {
        None
    }
}

/// Every slot is filled.
pub open spec fn is_complete<E, I, M, D, W>(v: ResourceView<E, I, M, D, W>) -> bool {
    first_missing(v) is None
}

pub open spec fn single_disjoint<T>(a: Option<T>, b: Option<T>) -> bool {
    !(a is Some && b is Some)
}

/// No slot, and no sensor index, is filled in both sets.
pub open spec fn disjoint<E, I, M, D, W>(
    a: ResourceView<E, I, M, D, W>,
    b: ResourceView<E, I, M, D, W>,
) -> bool {
    &&& single_disjoint(a.left_encoder, b.left_encoder)
    &&& single_disjoint(a.right_encoder, b.right_encoder)
    &&& single_disjoint(a.imu, b.imu)
    &&& single_disjoint(a.left_motor, b.left_motor)
    &&& single_disjoint(a.right_motor, b.right_motor)
    &&& single_disjoint(a.wall_manager, b.wall_manager)
    &&& forall|i: int|
        single_disjoint(#[trigger] sensor_at(a.distance_sensors, i), sensor_at(b.distance_sensors, i))
}

pub open spec fn either<T>(a: Option<T>, b: Option<T>) -> Option<T> {
    if a is Some {
        a
    } else {
        b
    }
}

pub open spec fn max_len(a: int, b: int) -> int {
    if a >= b {
        a
    } else {
        b
    }
}

pub open spec fn merged_sensors<D>(a: Seq<Option<D>>, b: Seq<Option<D>>) -> Seq<Option<D>> {
    Seq::new(
        max_len(a.len() as int, b.len() as int) as nat,
        |i: int| either(sensor_at(a, i), sensor_at(b, i)),
    )
}

/// The union of two sets: each slot holds the handle of whichever set had it.
pub open spec fn merged<E, I, M, D, W>(
    a: ResourceView<E, I, M, D, W>,
    b: ResourceView<E, I, M, D, W>,
) -> ResourceView<E, I, M, D, W> {
    ResourceView {
        left_encoder: either(a.left_encoder, b.left_encoder),
        right_encoder: either(a.right_encoder, b.right_encoder),
        imu: either(a.imu, b.imu),
        left_motor: either(a.left_motor, b.left_motor),
        right_motor: either(a.right_motor, b.right_motor),
        distance_sensors: merged_sensors(a.distance_sensors, b.distance_sensors),
        wall_manager: either(a.wall_manager, b.wall_manager),
    }
}

pub open spec fn kept<T>(o: Option<T>, take: bool) -> Option<T> {
    if take {
        o
    } else {
        None
    }
}

/// The part of a set that a claim takes.
pub open spec fn claimed_part<E, I, M, D, W>(v: ResourceView<E, I, M, D, W>, c: Claim) -> ResourceView<
    E,
    I,
    M,
    D,
    W,
> {
    ResourceView {
        left_encoder: kept(v.left_encoder, c.left_encoder),
        right_encoder: kept(v.right_encoder, c.right_encoder),
        imu: kept(v.imu, c.imu),
        left_motor: kept(v.left_motor, c.left_motor),
        right_motor: kept(v.right_motor, c.right_motor),
        distance_sensors: if c.distance_sensors {
            v.distance_sensors
        } else {
            Seq::empty()
        },
        wall_manager: kept(v.wall_manager, c.wall_manager),
    }
}

/// The part of a set that a claim leaves over.
pub open spec fn leftover_part<E, I, M, D, W>(v: ResourceView<E, I, M, D, W>, c: Claim) -> ResourceView<
    E,
    I,
    M,
    D,
    W,
> {
    ResourceView {
        left_encoder: kept(v.left_encoder, !c.left_encoder),
        right_encoder: kept(v.right_encoder, !c.right_encoder),
        imu: kept(v.imu, !c.imu),
        left_motor: kept(v.left_motor, !c.left_motor),
        right_motor: kept(v.right_motor, !c.right_motor),
        distance_sensors: if c.distance_sensors {
            Seq::empty()
        } else {
            v.distance_sensors
        },
        wall_manager: kept(v.wall_manager, !c.wall_manager),
    }
}

/// Merging is independent of which set supplied which slot: for sets that
/// fill no slot in common, the result holds the same handles either way.
pub proof fn lemma_merge_commutes<E, I, M, D, W>(
    a: ResourceView<E, I, M, D, W>,
    b: ResourceView<E, I, M, D, W>,
)
    requires
        disjoint(a, b),
    ensures
        merged(a, b) == merged(b, a),
{
    let (x, y) = (a.distance_sensors, b.distance_sensors);
    assert forall|i: int| 0 <= i < merged_sensors(x, y).len() implies merged_sensors(x, y)[i]
        == merged_sensors(y, x)[i] by {
        assert(single_disjoint(sensor_at(x, i), sensor_at(y, i)));
    }
    assert(merged_sensors(x, y) =~= merged_sensors(y, x));
}

/// The two parts of a split share no slot, and merging them gives back the
/// set that was split.
pub proof fn lemma_split_then_merge<E, I, M, D, W>(v: ResourceView<E, I, M, D, W>, c: Claim)
    ensures
        disjoint(claimed_part(v, c), leftover_part(v, c)),
        merged(claimed_part(v, c), leftover_part(v, c)) == v,
{
    let (a, b) = (claimed_part(v, c), leftover_part(v, c));
    assert(merged_sensors(a.distance_sensors, b.distance_sensors) =~= v.distance_sensors);
    assert(merged(a, b) =~= v);
}

/// The empty set shares no slot with any set, and merging with it changes
/// nothing.
pub proof fn lemma_merge_empty<E, I, M, D, W>(v: ResourceView<E, I, M, D, W>)
    ensures
        disjoint(v, empty_view()),
        merged(v, empty_view()) == v,
{
    let e = empty_view::<E, I, M, D, W>();
    assert(merged_sensors(v.distance_sensors, e.distance_sensors) =~= v.distance_sensors);
    assert(merged(v, e) =~= v);
}

proof fn lemma_sensors_below_past_end<D>(s: Seq<Option<D>>, n: int)
    requires
        n >= s.len(),
    ensures
        sensors_below(s, n) == sensor_count(s),
    decreases n,
{
    if n > s.len() {
        lemma_sensors_below_past_end(s, n - 1);
    }
}

proof fn lemma_sensors_below_merged<D>(a: Seq<Option<D>>, b: Seq<Option<D>>, n: int)
    requires
        forall|i: int| single_disjoint(#[trigger] sensor_at(a, i), sensor_at(b, i)),
        0 <= n <= merged_sensors(a, b).len(),
    ensures
        sensors_below(merged_sensors(a, b), n) == sensors_below(a, n) + sensors_below(b, n),
    decreases n,
{
    if n > 0 {
        lemma_sensors_below_merged(a, b, n - 1);
        assert(single_disjoint(sensor_at(a, n - 1), sensor_at(b, n - 1)));
    }
}

/// Merging moves handles and loses none: the merged set holds as many
/// peripherals as the two sets together.
pub proof fn lemma_merge_keeps_count<E, I, M, D, W>(
    a: ResourceView<E, I, M, D, W>,
    b: ResourceView<E, I, M, D, W>,
)
    requires
        disjoint(a, b),
    ensures
        peripheral_count(merged(a, b)) == peripheral_count(a) + peripheral_count(b),
{
    let (x, y) = (a.distance_sensors, b.distance_sensors);
    let m = merged_sensors(x, y);
    lemma_sensors_below_merged(x, y, m.len() as int);
    lemma_sensors_below_past_end(x, m.len() as int);
    lemma_sensors_below_past_end(y, m.len() as int);
}


/// The peripheral handles that a phase operator works with. Each handle is
/// owned by exactly one set: sets are combined by moving handles, never by
/// copying them.
pub struct ResourceSet<E, I, M, D, W> {
    left_encoder: Option<E>,
    right_encoder: Option<E>,
    imu: Option<I>,
    left_motor: Option<M>,
    right_motor: Option<M>,
    distance_sensors: Vec<Option<D>>,
    wall_manager: Option<W>,
}

impl<E, I, M, D, W> View for ResourceSet<E, I, M, D, W> {
    type V = ResourceView<E, I, M, D, W>;

    closed spec fn view(&self) -> ResourceView<E, I, M, D, W> {
        ResourceView {
            left_encoder: self.left_encoder,
            right_encoder: self.right_encoder,
            imu: self.imu,
            left_motor: self.left_motor,
            right_motor: self.right_motor,
            distance_sensors: self.distance_sensors@,
            wall_manager: self.wall_manager,
        }
    }
}

fn pick<T>(a: Option<T>, b: Option<T>) -> (r: Option<T>)
    ensures
        r == either(a, b),
{
    match a {
        Some(x) => Some(x),
        None => b,
    }
}

fn borrow_slot<T>(o: &Option<T>) -> (r: Option<&T>)
    ensures
        r is Some <==> o is Some,
        r is Some ==> *r->0 == o->0,
{
    match o {
        Some(x) => Some(x),
        None => None,
    }
}

fn divide<T>(o: Option<T>, take: bool) -> (r: (Option<T>, Option<T>))
    ensures
        r.0 == kept(o, take),
        r.1 == kept(o, !take),
{
    if take {
        (o, None)
    } else {
        (None, o)
    }
}

fn pad_to<D>(v: &mut Vec<Option<D>>, n: usize)
    requires
        old(v)@.len() <= n,
    ensures
        final(v)@.len() == n,
        forall|i: int| #[trigger] sensor_at(final(v)@, i) == sensor_at(old(v)@, i),
{
    while v.len() < n
        invariant
            old(v)@.len() <= v@.len() <= n,
            v@.subrange(0, old(v)@.len() as int) == old(v)@,
            forall|i: int| old(v)@.len() <= i < v@.len() ==> (#[trigger] v@[i]) is None,
        decreases n - v@.len(),
    {
        v.push(None);
        assert(v@.subrange(0, old(v)@.len() as int) =~= old(v)@);
    }
    assert forall|i: int| #[trigger] sensor_at(v@, i) == sensor_at(old(v)@, i) by {
        if 0 <= i < old(v)@.len() {
            assert(v@[i] == v@.subrange(0, old(v)@.len() as int)[i]);
        }
    }
}

impl<E, I, M, D, W> ResourceSet<E, I, M, D, W> {
    /// A set with every slot empty.
    pub fn new() -> (r: Self)
        ensures
            r@ == empty_view::<E, I, M, D, W>(),
    {
        let r = ResourceSet {
            left_encoder: None,
            right_encoder: None,
            imu: None,
            left_motor: None,
            right_motor: None,
            distance_sensors: Vec::new(),
            wall_manager: None,
        };
        assert(r@.distance_sensors =~= Seq::<Option<D>>::empty());
        r
    }

    /// Fills the left encoder slot, replacing what it held.
    pub fn left_encoder(self, e: E) -> (r: Self)
        ensures
            r@ == (ResourceView { left_encoder: Some(e), ..self@ }),
    {
        ResourceSet { left_encoder: Some(e), ..self }
    }

    /// Fills the right encoder slot, replacing what it held.
    pub fn right_encoder(self, e: E) -> (r: Self)
        ensures
            r@ == (ResourceView { right_encoder: Some(e), ..self@ }),
    {
        ResourceSet { right_encoder: Some(e), ..self }
    }

    /// Fills the inertial sensor slot, replacing what it held.
    pub fn imu(self, imu: I) -> (r: Self)
        ensures
            r@ == (ResourceView { imu: Some(imu), ..self@ }),
    {
        ResourceSet { imu: Some(imu), ..self }
    }

    /// Fills the left motor slot, replacing what it held.
    pub fn left_motor(self, m: M) -> (r: Self)
        ensures
            r@ == (ResourceView { left_motor: Some(m), ..self@ }),
    {
        ResourceSet { left_motor: Some(m), ..self }
    }

    /// Fills the right motor slot, replacing what it held.
    pub fn right_motor(self, m: M) -> (r: Self)
        ensures
            r@ == (ResourceView { right_motor: Some(m), ..self@ }),
    {
        ResourceSet { right_motor: Some(m), ..self }
    }

    /// Fills the map-knowledge slot, replacing what it held.
    pub fn wall_manager(self, w: W) -> (r: Self)
        ensures
            r@ == (ResourceView { wall_manager: Some(w), ..self@ }),
    {
        ResourceSet { wall_manager: Some(w), ..self }
    }

    /// Fills the distance-sensor slot, replacing what it held: the sensor at
    /// position `i` of `sensors` gets index `i`.
    pub fn distance_sensors(self, sensors: Vec<D>) -> (r: Self)
        ensures
            r@ == (ResourceView {
                distance_sensors: sensors@.map_values(|d: D| Some(d)),
                ..self@
            }),
    {
        let ghost given = sensors@;
        let mut rest = sensors;
        let mut slots: Vec<Option<D>> = Vec::new();
        while rest.len() > 0
            invariant
                slots@.len() + rest@.len() == given.len(),
                rest@ == given.subrange(slots@.len() as int, given.len() as int),
                slots@ == given.subrange(0, slots@.len() as int).map_values(|d: D| Some(d)),
            decreases rest@.len(),
        {
            let d = rest.remove(0);
            slots.push(Some(d));
            assert(rest@ =~= given.subrange(slots@.len() as int, given.len() as int));
            assert(slots@ =~= given.subrange(0, slots@.len() as int).map_values(|d: D| Some(d)));
        }
        assert(given.subrange(0, given.len() as int) =~= given);
        ResourceSet { distance_sensors: slots, ..self }
    }

    /// The left encoder, if the set holds it.
    pub fn get_left_encoder(&self) -> (r: Option<&E>)
        ensures
            r is Some <==> self@.left_encoder is Some,
            r is Some ==> *r->0 == self@.left_encoder->0,
    {
        borrow_slot(&self.left_encoder)
    }

    /// The right encoder, if the set holds it.
    pub fn get_right_encoder(&self) -> (r: Option<&E>)
        ensures
            r is Some <==> self@.right_encoder is Some,
            r is Some ==> *r->0 == self@.right_encoder->0,
    {
        borrow_slot(&self.right_encoder)
    }

    /// The inertial sensor, if the set holds it.
    pub fn get_imu(&self) -> (r: Option<&I>)
        ensures
            r is Some <==> self@.imu is Some,
            r is Some ==> *r->0 == self@.imu->0,
    {
        borrow_slot(&self.imu)
    }

    /// The left motor, if the set holds it.
    pub fn get_left_motor(&self) -> (r: Option<&M>)
        ensures
            r is Some <==> self@.left_motor is Some,
            r is Some ==> *r->0 == self@.left_motor->0,
    {
        borrow_slot(&self.left_motor)
    }

    /// The right motor, if the set holds it.
    pub fn get_right_motor(&self) -> (r: Option<&M>)
        ensures
            r is Some <==> self@.right_motor is Some,
            r is Some ==> *r->0 == self@.right_motor->0,
    {
        borrow_slot(&self.right_motor)
    }

    /// The map-knowledge handle, if the set holds it.
    pub fn get_wall_manager(&self) -> (r: Option<&W>)
        ensures
            r is Some <==> self@.wall_manager is Some,
            r is Some ==> *r->0 == self@.wall_manager->0,
    {
        borrow_slot(&self.wall_manager)
    }

    /// The distance sensor of index `i`, if the set holds it.
    pub fn get_distance_sensor(&self, i: usize) -> (r: Option<&D>)
        ensures
            r is Some <==> sensor_at(self@.distance_sensors, i as int) is Some,
            r is Some ==> *r->0 == sensor_at(self@.distance_sensors, i as int)->0,
    {
        if i < self.distance_sensors.len() {
            borrow_slot(&self.distance_sensors[i])
        } else {
            None
        }
    }

    /// The first empty slot, in declaration order, or the set itself when
    /// every slot is filled.
    pub fn build(self) -> (r: Result<Self, Slot>)
        ensures
            match r {
                Ok(s) => first_missing(self@) is None && s@ == self@,
                Err(slot) => first_missing(self@) == Some(slot),
            },
    {
        if self.left_encoder.is_none() {
            return Err(Slot::LeftEncoder);
        }
        if self.right_encoder.is_none() {
            return Err(Slot::RightEncoder);
        }
        if self.imu.is_none() {
            return Err(Slot::Imu);
        }
        if self.left_motor.is_none() {
            return Err(Slot::LeftMotor);
        }
        if self.right_motor.is_none() {
            return Err(Slot::RightMotor);
        }
        if self.distance_sensors.len() == 0 {
            return Err(Slot::DistanceSensors);
        }
        let mut i: usize = 0;
        while i < self.distance_sensors.len()
            invariant
                i <= self.distance_sensors@.len(),
                self.distance_sensors@.len() > 0,
                self.left_encoder is Some && self.right_encoder is Some && self.imu is Some,
                self.left_motor is Some && self.right_motor is Some,
                forall|k: int| 0 <= k < i ==> (#[trigger] self.distance_sensors@[k]) is Some,
            decreases self.distance_sensors@.len() - i,
        {
            if self.distance_sensors[i].is_none() {
                assert(self@.distance_sensors[i as int] is None);
                return Err(Slot::DistanceSensors);
            }
            i = i + 1;
        }
        if self.wall_manager.is_none() {
            return Err(Slot::WallManager);
        }
        Ok(self)
    }

    /// Splits the set in two: the slots that `claim` takes, and the rest.
    pub fn split(self, claim: Claim) -> (r: (Self, Self))
        ensures
            r.0@ == claimed_part(self@, claim),
            r.1@ == leftover_part(self@, claim),
    {
        let (le0, le1) = divide(self.left_encoder, claim.left_encoder);
        let (re0, re1) = divide(self.right_encoder, claim.right_encoder);
        let (imu0, imu1) = divide(self.imu, claim.imu);
        let (lm0, lm1) = divide(self.left_motor, claim.left_motor);
        let (rm0, rm1) = divide(self.right_motor, claim.right_motor);
        let (wm0, wm1) = divide(self.wall_manager, claim.wall_manager);
        let (ds0, ds1) = if claim.distance_sensors {
            (self.distance_sensors, Vec::new())
        } else {
            (Vec::new(), self.distance_sensors)
        };
        let taken = ResourceSet {
            left_encoder: le0,
            right_encoder: re0,
            imu: imu0,
            left_motor: lm0,
            right_motor: rm0,
            distance_sensors: ds0,
            wall_manager: wm0,
        };
        let rest = ResourceSet {
            left_encoder: le1,
            right_encoder: re1,
            imu: imu1,
            left_motor: lm1,
            right_motor: rm1,
            distance_sensors: ds1,
            wall_manager: wm1,
        };
        assert(taken@ =~= claimed_part(self@, claim));
        assert(rest@ =~= leftover_part(self@, claim));
        (taken, rest)
    }

    /// Whether the two sets fill no slot, and no sensor index, in common:
    /// exactly when they may be merged.
    pub fn is_disjoint(&self, other: &Self) -> (b: bool)
        ensures
            b == disjoint(self@, other@),
    {
        if self.left_encoder.is_some() && other.left_encoder.is_some() {
            return false;
        }
        if self.right_encoder.is_some() && other.right_encoder.is_some() {
            return false;
        }
        if self.imu.is_some() && other.imu.is_some() {
            return false;
        }
        if self.left_motor.is_some() && other.left_motor.is_some() {
            return false;
        }
        if self.right_motor.is_some() && other.right_motor.is_some() {
            return false;
        }
        if self.wall_manager.is_some() && other.wall_manager.is_some() {
            return false;
        }
        let n = if self.distance_sensors.len() <= other.distance_sensors.len() {
            self.distance_sensors.len()
        } else {
            other.distance_sensors.len()
        };
        let mut i: usize = 0;
        while i < n
            invariant
                i <= n,
                n <= self.distance_sensors@.len(),
                n <= other.distance_sensors@.len(),
                forall|k: int|
                    0 <= k < i ==> single_disjoint(
                        #[trigger] sensor_at(self@.distance_sensors, k),
                        sensor_at(other@.distance_sensors, k),
                    ),
            decreases n - i,
        {
            if self.distance_sensors[i].is_some() && other.distance_sensors[i].is_some() {
                assert(!single_disjoint(
                    sensor_at(self@.distance_sensors, i as int),
                    sensor_at(other@.distance_sensors, i as int),
                ));
                return false;
            }
            i = i + 1;
        }
        assert forall|k: int|
            single_disjoint(
                #[trigger] sensor_at(self@.distance_sensors, k),
                sensor_at(other@.distance_sensors, k),
            ) by {
            if !(0 <= k < i) {
                assert(sensor_at(self@.distance_sensors, k) is None || sensor_at(
                    other@.distance_sensors,
                    k,
                ) is None);
            }
        }
        true
    }

    /// Moves every handle of both sets into one set. No slot may be filled in
    /// both: each handle then stands once in the result.
    pub fn merge(self, other: Self) -> (r: Self)
        requires
            disjoint(self@, other@),
        ensures
            r@ == merged(self@, other@),
    {
        let ghost a = self@;
        let ghost b = other@;
        let mut xs = self.distance_sensors;
        let mut ys = other.distance_sensors;
        let n = if xs.len() >= ys.len() {
            xs.len()
        } else {
            ys.len()
        };
        pad_to(&mut xs, n);
        pad_to(&mut ys, n);
        let ghost px = xs@;
        let ghost py = ys@;
        let mut zs: Vec<Option<D>> = Vec::new();
        while xs.len() > 0
            invariant
                xs@.len() == ys@.len(),
                zs@.len() + xs@.len() == n,
                px.len() == n,
                py.len() == n,
                xs@ == px.subrange(zs@.len() as int, n as int),
                ys@ == py.subrange(zs@.len() as int, n as int),
                forall|k: int| 0 <= k < zs@.len() ==> #[trigger] zs@[k] == either(px[k], py[k]),
            decreases xs@.len(),
        {
            let x = xs.remove(0);
            let y = ys.remove(0);
            zs.push(pick(x, y));
            assert(xs@ =~= px.subrange(zs@.len() as int, n as int));
            assert(ys@ =~= py.subrange(zs@.len() as int, n as int));
        }
        proof {
            assert forall|k: int| 0 <= k < n implies #[trigger] zs@[k] == either(
                sensor_at(a.distance_sensors, k),
                sensor_at(b.distance_sensors, k),
            ) by {
                assert(sensor_at(px, k) == sensor_at(a.distance_sensors, k));
                assert(sensor_at(py, k) == sensor_at(b.distance_sensors, k));
            }
            assert(zs@ =~= merged_sensors(a.distance_sensors, b.distance_sensors));
        }
        ResourceSet {
            left_encoder: pick(self.left_encoder, other.left_encoder),
            right_encoder: pick(self.right_encoder, other.right_encoder),
            imu: pick(self.imu, other.imu),
            left_motor: pick(self.left_motor, other.left_motor),
            right_motor: pick(self.right_motor, other.right_motor),
            distance_sensors: zs,
            wall_manager: pick(self.wall_manager, other.wall_manager),
        }
    }
}

} // verus!
