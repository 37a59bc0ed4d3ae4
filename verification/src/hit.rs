//! Intersections of rays with surfaces.
use crate::fixed::Fixed;
use crate::interval::{Interval, Span};
use crate::material::{AnyMaterial, MaterialModel};
use crate::ray::{Ray, RayModel};
use crate::vec3::{dot, nearly_unit, Point3, Vec3, V3};
use crate::views::opt_view;
use vstd::prelude::*;

verus! {

/// The mathematical model of a [`HitRecord`].
pub struct HitModel {
    pub p: V3,
    pub normal: V3,
    pub t: int,
    pub front_face: bool,
    pub mat: MaterialModel,
}

impl HitModel {
    /// The record with its normal and face set from the ray and the
    /// surface's outward normal: the ray strikes the front face when it runs
    /// against the outward normal, and the normal kept is the one that
    /// opposes the ray.
    pub open spec fn with_face_normal(self, r: RayModel, outward_normal: V3) -> HitModel {
        let front_face = r.direction.dot(outward_normal) < 0;
        HitModel {
            front_face,
            normal: if front_face {
                outward_normal
            } else {
                outward_normal.negated()
            },
            ..self
        }
    }
}

/// Where and how a ray struck a surface.
#[derive(Clone, Copy, Debug, PartialEq, Eq, Structural)]
pub struct HitRecord {
    /// The point struck.
    pub p: Point3,
    /// The surface normal there, turned against the ray.
    pub normal: Vec3,
    /// The ray parameter of the point.
    pub t: Fixed,
    /// Whether the ray came from outside the surface.
    pub front_face: bool,
    /// The material of the surface.
    pub mat: AnyMaterial,
}

impl View for HitRecord {
    type V = HitModel;

    open spec fn view(&self) -> HitModel {
        HitModel {
            p: self.p@,
            normal: self.normal@,
            t: self.t@,
            front_face: self.front_face,
            mat: self.mat@,
        }
    }
}

impl HitRecord {
    /// Sets the face and the normal from the ray and the surface's outward
    /// normal, which is taken to have unit length.
    pub fn set_face_normal(&mut self, r: &Ray, outward_normal: Vec3)
        ensures
            final(self)@ == old(self)@.with_face_normal(r@, outward_normal@),
    {
        self.front_face = dot(&r.direction(), &outward_normal).lt(Fixed::zero());
        self.normal = if self.front_face {
            outward_normal
        } else {
            outward_normal.neg()
        };
    }
}

/// A hit, kept only if it lies before `upper`.
pub open spec fn before(hit: Option<HitModel>, upper: int) -> Option<HitModel> {
    match hit {
        Some(h) => if h.t < upper {
            Some(h)
        } else {
            None
        },
        None => None,
    }
}

/// What a ray can strike.
///
/// An implementation says by `hit_model` which intersection it reports and
/// proves two laws about it, on which a collection of surfaces relies to
/// find the nearest intersection among its members.
pub trait Hittable {
    /// The intersection of `r` with the surface that `hit` reports for the
    /// parameter range `ray_t`, if any.
    spec fn hit_model(&self, r: RayModel, ray_t: Span) -> Option<HitModel>;

    /// A reported intersection lies strictly inside the range, and its
    /// normal has unit length up to rounding and does not point along the
    /// ray.
    proof fn lemma_hit_inside(&self, r: RayModel, ray_t: Span)
        ensures
            self.hit_model(r, ray_t) matches Some(h) ==> ray_t.surrounds(h.t) && h.normal.dot(
                r.direction,
            ) <= 0 && nearly_unit(h.normal),
    ;

    /// Lowering the upper end of the range keeps the reported intersection
    /// if it still lies in the range, and reports none otherwise: the
    /// intersection reported is the first one in the range.
    proof fn lemma_hit_narrowed(&self, r: RayModel, ray_t: Span, upper: int)
        requires
            upper <= ray_t.max,
        ensures
            self.hit_model(r, Span { min: ray_t.min, max: upper }) == before(
                self.hit_model(r, ray_t),
                upper,
            ),
    ;

    /// Intersects `r` with the surface for parameters strictly inside
    /// `ray_t`.
    fn hit(&self, r: &Ray, ray_t: Interval) -> (res: Option<HitRecord>)
        ensures
            opt_view(res) == self.hit_model(r@, ray_t@),
            res matches Some(rec) ==> ray_t@.surrounds(rec@.t) && rec@.normal.dot(r@.direction)
                <= 0 && nearly_unit(rec@.normal),
    ;
}

/// The upper end of the range in which the next member is searched: the
/// parameter of the nearest intersection so far, or the end of the whole
/// range.
pub open spec fn closest_so_far(best: Option<HitModel>, ray_t: Span) -> int {
    match best {
        Some(h) => h.t,
        None => ray_t.max,
    }
}

/// The intersection that a scan of the first `n` members reports: each member
/// is asked for an intersection before the nearest one found so far, and
/// what it finds replaces that one.
pub open spec fn scan<H: Hittable>(members: Seq<H>, r: RayModel, ray_t: Span, n: int) -> Option<
    HitModel,
>
    decreases n,
{
    if n <= 0 {
        None
    } else {
        let best = scan(members, r, ray_t, n - 1);
        let found = members[n - 1].hit_model(
            r,
            Span { min: ray_t.min, max: closest_so_far(best, ray_t) },
        );
        match found {
            Some(h) => Some(h),
            None => best,
        }
    }
}

/// Whether `h` is the nearest of the intersections that the first `n`
/// members report for the whole range: one of them reports it, and none
/// reports one with a smaller parameter.
pub open spec fn is_nearest<H: Hittable>(
    members: Seq<H>,
    r: RayModel,
    ray_t: Span,
    n: int,
    h: HitModel,
) -> bool {
    &&& exists|i: int| 0 <= i < n && #[trigger] members[i].hit_model(r, ray_t) == Some(h)
    &&& forall|j: int|
        0 <= j < n ==> (#[trigger] members[j].hit_model(r, ray_t) matches Some(other) ==> h.t
            <= other.t)
}

/// Whether none of the first `n` members reports an intersection for the
/// whole range.
pub open spec fn all_miss<H: Hittable>(members: Seq<H>, r: RayModel, ray_t: Span, n: int) -> bool {
    forall|j: int| 0 <= j < n ==> #[trigger] members[j].hit_model(r, ray_t) is None
}

/// A scan reports the nearest of the members' intersections, and none
/// exactly when no member reports one.
pub proof fn lemma_scan_nearest<H: Hittable>(members: Seq<H>, r: RayModel, ray_t: Span, n: int)
    requires
        0 <= n <= members.len(),
    ensures
        scan(members, r, ray_t, n) is None <==> all_miss(members, r, ray_t, n),
        scan(members, r, ray_t, n) matches Some(h) ==> is_nearest(members, r, ray_t, n, h)
            && ray_t.surrounds(h.t) && h.normal.dot(r.direction) <= 0 && nearly_unit(h.normal),
    decreases n,
{
    if n > 0 {
        lemma_scan_nearest(members, r, ray_t, n - 1);
        let best = scan(members, r, ray_t, n - 1);
        let upper = closest_so_far(best, ray_t);
        let member = members[n - 1];
        let whole = member.hit_model(r, ray_t);
        member.lemma_hit_inside(r, ray_t);
        member.lemma_hit_narrowed(r, ray_t, upper);
        member.lemma_hit_inside(r, Span { min: ray_t.min, max: upper });
        let found = member.hit_model(r, Span { min: ray_t.min, max: upper });
        assert(found == before(whole, upper));
        match found {
            Some(h) => {
                assert(members[n - 1].hit_model(r, ray_t) == Some(h));
                assert forall|j: int| 0 <= j < n implies (#[trigger] members[j].hit_model(
                    r,
                    ray_t,
                ) matches Some(other) ==> h.t <= other.t) by {
                    if j < n - 1 {
                        if best is None {
                            assert(members[j].hit_model(r, ray_t) is None);
                        }
                    }
                }
            },
            None => {
                match best {
                    Some(h) => {
                        let i = choose|i: int|
                            0 <= i < n - 1 && #[trigger] members[i].hit_model(r, ray_t) == Some(h);
                        assert(members[i].hit_model(r, ray_t) == Some(h));
                    },
                    None => {
                        assert forall|j: int| 0 <= j < n implies #[trigger] members[j].hit_model(
                            r,
                            ray_t,
                        ) is None by {
                            if j < n - 1 {
                                assert(members[j].hit_model(r, ray_t) is None);
                            }
                        }
                    },
                }
            },
        }
    }
}

/// Lowering the upper end of the range changes the result of a scan as it
/// changes that of a single surface.
pub proof fn lemma_scan_narrowed<H: Hittable>(
    members: Seq<H>,
    r: RayModel,
    ray_t: Span,
    upper: int,
    n: int,
)
    requires
        0 <= n <= members.len(),
        upper <= ray_t.max,
    ensures
        scan(members, r, Span { min: ray_t.min, max: upper }, n) == before(
            scan(members, r, ray_t, n),
            upper,
        ),
    decreases n,
{
    if n > 0 {
        let narrow = Span { min: ray_t.min, max: upper };
        lemma_scan_narrowed(members, r, ray_t, upper, n - 1);
        lemma_scan_nearest(members, r, ray_t, n - 1);
        lemma_scan_nearest(members, r, narrow, n - 1);
        let best = scan(members, r, ray_t, n - 1);
        let best_narrow = scan(members, r, narrow, n - 1);
        let bound = closest_so_far(best, ray_t);
        let bound_narrow = closest_so_far(best_narrow, narrow);
        let member = members[n - 1];
        member.lemma_hit_narrowed(r, ray_t, bound);
        member.lemma_hit_narrowed(r, ray_t, upper);
        member.lemma_hit_narrowed(r, narrow, bound_narrow);
    }
}

/// The ray parameter of an intersection, if there is one.
pub open spec fn hit_parameter(hit: Option<HitModel>) -> Option<int> {
    match hit {
        Some(h) => Some(h.t),
        None => None,
    }
}

/// Whether a ray strikes a collection, and at which parameter, depends on
/// which surfaces it holds, not on their order or their number of copies.
pub proof fn lemma_scan_order_independent<H: Hittable>(
    a: Seq<H>,
    b: Seq<H>,
    r: RayModel,
    ray_t: Span,
)
    requires
        forall|x: H| a.contains(x) <==> b.contains(x),
    ensures
        hit_parameter(scan(a, r, ray_t, a.len() as int)) == hit_parameter(
            scan(b, r, ray_t, b.len() as int),
        ),
{
    lemma_scan_nearest(a, r, ray_t, a.len() as int);
    lemma_scan_nearest(b, r, ray_t, b.len() as int);
    lemma_reported_elsewhere(a, b, r, ray_t);
    lemma_reported_elsewhere(b, a, r, ray_t);
}

/// What a member of `a` reports is reported by a member of `b`, if `b` holds
/// every member of `a`: `b` is struck if `a` is, and not later.
proof fn lemma_reported_elsewhere<H: Hittable>(a: Seq<H>, b: Seq<H>, r: RayModel, ray_t: Span)
    requires
        forall|x: H| a.contains(x) ==> b.contains(x),
        scan(a, r, ray_t, a.len() as int) is None <==> all_miss(a, r, ray_t, a.len() as int),
        scan(a, r, ray_t, a.len() as int) matches Some(h) ==> is_nearest(
            a,
            r,
            ray_t,
            a.len() as int,
            h,
        ),
        scan(b, r, ray_t, b.len() as int) is None <==> all_miss(b, r, ray_t, b.len() as int),
        scan(b, r, ray_t, b.len() as int) matches Some(h) ==> is_nearest(
            b,
            r,
            ray_t,
            b.len() as int,
            h,
        ),
    ensures
        scan(a, r, ray_t, a.len() as int) matches Some(ha) ==> (scan(
            b,
            r,
            ray_t,
            b.len() as int,
        ) matches Some(hb) && hb.t <= ha.t),
{
    match scan(a, r, ray_t, a.len() as int) {
        Some(ha) => {
            let i = choose|i: int|
                0 <= i < a.len() && #[trigger] a[i].hit_model(r, ray_t) == Some(ha);
            assert(a.contains(a[i]));
            assert(b.contains(a[i]));
            let j = choose|j: int| 0 <= j < b.len() && b[j] == a[i];
            assert(b[j].hit_model(r, ray_t) == Some(ha));
        },
        None => {},
    }
}

/// A collection of surfaces, itself a surface: a ray strikes it where it
/// first strikes one of its members.
pub struct HittableList<H: Hittable> {
    objects: Vec<H>,
}

impl<H: Hittable> View for HittableList<H> {
    type V = Seq<H>;

    closed spec fn view(&self) -> Seq<H> {
        self.objects@
    }
}

impl<H: Hittable> HittableList<H> {
    /// The collection without members.
    pub fn new() -> (r: Self)
        ensures
            r@ == Seq::<H>::empty(),
    {
        HittableList { objects: Vec::new() }
    }

    /// Appends a member.
    pub fn add(&mut self, object: H)
        ensures
            final(self)@ == old(self)@.push(object),
    {
        self.objects.push(object);
    }

    /// Removes all members.
    pub fn clear(&mut self)
        ensures
            final(self)@ == Seq::<H>::empty(),
    {
        self.objects.clear();
    }

    /// Number of members.
    pub fn len(&self) -> (n: usize)
        ensures
            n == self@.len(),
    {
        self.objects.len()
    }
}

impl<H: Hittable> Default for HittableList<H> {
    fn default() -> (r: Self)
        ensures
            r@ == Seq::<H>::empty(),
    {
        HittableList::new()
    }
}

impl<H: Hittable> Hittable for HittableList<H> {
    open spec fn hit_model(&self, r: RayModel, ray_t: Span) -> Option<HitModel> {
        scan(self@, r, ray_t, self@.len() as int)
    }

    proof fn lemma_hit_inside(&self, r: RayModel, ray_t: Span) {
        lemma_scan_nearest(self@, r, ray_t, self@.len() as int);
    }

    proof fn lemma_hit_narrowed(&self, r: RayModel, ray_t: Span, upper: int) {
        lemma_scan_narrowed(self@, r, ray_t, upper, self@.len() as int);
    }

    /// The nearest of the members' intersections with `r` inside `ray_t`;
    /// among members that report the same parameter the first one wins.
    fn hit(&self, r: &Ray, ray_t: Interval) -> (res: Option<HitRecord>)
        ensures
            res is None <==> all_miss(self@, r@, ray_t@, self@.len() as int),
            res matches Some(rec) ==> is_nearest(self@, r@, ray_t@, self@.len() as int, rec@),
    {
        let mut closest_so_far = ray_t.max;
        let mut hit_record: Option<HitRecord> = None;
        let mut i: usize = 0;
        while i < self.objects.len()
            invariant
                i <= self.objects.len(),
                opt_view(hit_record) == scan(self@, r@, ray_t@, i as int),
                closest_so_far@ == self::closest_so_far(opt_view(hit_record), ray_t@),
            decreases self.objects.len() - i,
        {
            match self.objects[i].hit(r, Interval::new(ray_t.min, closest_so_far)) {
                Some(rec) => {
                    closest_so_far = rec.t;
                    hit_record = Some(rec);
                },
                None => {},
            }
            i = i + 1;
        }
        proof {
            lemma_scan_nearest(self@, r@, ray_t@, self@.len() as int);
        }
        hit_record
    }
}

} // verus!
