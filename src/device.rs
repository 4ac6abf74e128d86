use vstd::prelude::*;

verus! {

/// One part of a device range, in integer units (Hz for frequencies and
/// sample rates, thousandths of a dB for gains).
#[derive(Clone, Copy, Debug, PartialEq, Eq, Structural)]
pub enum RangeItem {
    /// Every value from the first to the second, inclusive.
    Interval(i64, i64),
    /// One value.
    Value(i64),
    /// From the first to the second, in steps of the third.
    Step(i64, i64, i64),
}

pub open spec fn item_wf(it: RangeItem) -> bool {
    match it {
        RangeItem::Interval(a, b) => a <= b,
        RangeItem::Value(_) => true,
        RangeItem::Step(a, b, s) => a <= b && s > 0,
    }
}

pub open spec fn in_item(it: RangeItem, v: int) -> bool {
    match it {
        RangeItem::Interval(a, b) => a <= v <= b,
        RangeItem::Value(x) => v == x,
        RangeItem::Step(a, b, s) => a <= v <= b && (v - a) % (s as int) == 0,
    }
}

/// Largest value of the item that is at most `value`.
pub open spec fn item_below(it: RangeItem, value: int) -> Option<int> {
    match it {
        RangeItem::Interval(a, b) => if value >= a {
            Some(if value < b { value } else { b as int })
        } else {
            None
        },
        RangeItem::Value(x) => if value >= x {
            Some(x as int)
        } else {
            None
        },
        RangeItem::Step(a, b, s) => if value >= a {
            let lim = if value < b { value } else { b as int };
            Some(a + ((lim - a) / (s as int)) * s)
        } else {
            None
        },
    }
}

/// Smallest value of the item that is at least `value`.
pub open spec fn item_above(it: RangeItem, value: int) -> Option<int> {
    match it {
        RangeItem::Interval(a, b) => if value <= b {
            Some(if value > a { value } else { a as int })
        } else {
            None
        },
        RangeItem::Value(x) => if value <= x {
            Some(x as int)
        } else {
            None
        },
        RangeItem::Step(a, b, s) => if value <= a {
            Some(a as int)
        } else if value > b {
            None
        } else {
            let c = a + ((value - a + s - 1) / (s as int)) * s;
            if c <= b {
                Some(c)
            } else {
                None
            }
        },
    }
}

/// Upper bound an item declares.
pub open spec fn item_top(it: RangeItem) -> int {
    match it {
        RangeItem::Interval(_, b) => b as int,
        RangeItem::Value(x) => x as int,
        RangeItem::Step(_, b, _) => b as int,
    }
}

pub open spec fn abs_diff(x: int, y: int) -> int {
    if x >= y {
        x - y
    } else {
        y - x
    }
}

proof fn lemma_floor_div(d: int, s: int, j: int)
    requires
        s > 0,
        d >= 0,
        0 <= j,
        j * s <= d,
    ensures
        j <= d / s,
        (d / s) * s <= d,
        d / s >= 0,
{
    vstd::arithmetic::div_mod::lemma_fundamental_div_mod(d, s);
    vstd::arithmetic::div_mod::lemma_mod_bound(d, s);
    let k = d / s;
    assert(j <= k && k * s <= d && k >= 0) by (nonlinear_arith)
        requires
            d == s * k + d % s,
            0 <= d % s < s,
            j * s <= d,
            s > 0,
            d >= 0,
            j >= 0,
    ;
}

proof fn lemma_ceil_div(d: int, s: int)
    requires
        s > 0,
        d > 0,
    ensures
        ((d + s - 1) / s) * s >= d,
        ((d + s - 1) / s) * s < d + s,
        1 <= (d + s - 1) / s <= d,
{
    vstd::arithmetic::div_mod::lemma_fundamental_div_mod(d + s - 1, s);
    vstd::arithmetic::div_mod::lemma_mod_bound(d + s - 1, s);
    let k = (d + s - 1) / s;
    assert(k * s >= d && k * s < d + s && k >= 1 && k <= d) by (nonlinear_arith)
        requires
            d + s - 1 == s * k + (d + s - 1) % s,
            0 <= (d + s - 1) % s < s,
            s > 0,
            d > 0,
    ;
}

proof fn lemma_ceil_div_least(d: int, s: int, j: int)
    requires
        s > 0,
        d > 0,
        j * s >= d,
    ensures
        (d + s - 1) / s <= j,
{
    vstd::arithmetic::div_mod::lemma_fundamental_div_mod(d + s - 1, s);
    vstd::arithmetic::div_mod::lemma_mod_bound(d + s - 1, s);
    let k = (d + s - 1) / s;
    assert(k <= j) by (nonlinear_arith)
        requires
            d + s - 1 == s * k + (d + s - 1) % s,
            0 <= (d + s - 1) % s < s,
            j * s >= d,
            s > 0,
    ;
}

proof fn lemma_step_member(a: int, s: int, k: int)
    requires
        s > 0,
    ensures
        (a + k * s - a) % s == 0,
{
    assert(a + k * s - a == k * s);
    vstd::arithmetic::div_mod::lemma_mod_multiples_basic(k, s);
}

proof fn lemma_step_index(a: int, s: int, v: int)
    requires
        s > 0,
        v >= a,
        (v - a) % s == 0,
    ensures
        ((v - a) / s) * s == v - a,
        (v - a) / s >= 0,
{
    vstd::arithmetic::div_mod::lemma_fundamental_div_mod(v - a, s);
    vstd::arithmetic::div_mod::lemma_div_pos_is_pos(v - a, s);
    assert(((v - a) / s) * s == s * ((v - a) / s)) by (nonlinear_arith);
}

/// `item_below` is the largest member at most `value`, or there is none.
proof fn lemma_item_below(it: RangeItem, value: int)
    requires
        item_wf(it),
    ensures
        item_below(it, value) is Some ==> in_item(it, item_below(it, value)->0) && item_below(
            it,
            value,
        )->0 <= value,
        forall|v: int|
            #[trigger] in_item(it, v) && v <= value ==> item_below(it, value) is Some && v
                <= item_below(it, value)->0,
{
    if let RangeItem::Step(a, b, s) = it {
        if value >= a {
            let lim = if value < b {
                value
            } else {
                b as int
            };
            let k = (lim - a) / (s as int);
            lemma_floor_div(lim - a, s as int, 0);
            lemma_step_member(a as int, s as int, k);
            assert forall|v: int| #[trigger] in_item(it, v) && v <= value implies v <= a + k * s by {
                lemma_step_index(a as int, s as int, v);
                let j = (v - a) / (s as int);
                lemma_floor_div(lim - a, s as int, j);
                assert(j * s <= k * s) by (nonlinear_arith)
                    requires
                        j <= k,
                        s > 0,
                ;
            }
        }
    }
}

/// `item_above` is the smallest member at least `value`, or there is none.
proof fn lemma_item_above(it: RangeItem, value: int)
    requires
        item_wf(it),
    ensures
        item_above(it, value) is Some ==> in_item(it, item_above(it, value)->0) && item_above(
            it,
            value,
        )->0 >= value,
        forall|v: int|
            #[trigger] in_item(it, v) && v >= value ==> item_above(it, value) is Some && v
                >= item_above(it, value)->0,
{
    if let RangeItem::Step(a, b, s) = it {
        assert((a - a) % (s as int) == 0) by {
            lemma_step_member(a as int, s as int, 0);
        }
        if value > a && value <= b {
            let d = value - a;
            let k = (d + s - 1) / (s as int);
            lemma_ceil_div(d, s as int);
            lemma_step_member(a as int, s as int, k);
            assert forall|v: int| #[trigger] in_item(it, v) && v >= value implies item_above(
                it,
                value,
            ) is Some && v >= a + k * s by {
                lemma_step_index(a as int, s as int, v);
                let j = (v - a) / (s as int);
                assert(j * s >= d);
                lemma_ceil_div_least(d, s as int, j);
                assert(j * s >= k * s) by (nonlinear_arith)
                    requires
                        j >= k,
                        s > 0,
                ;
            }
        }
    }
}

/// A nonempty set of values a device supports for one setting.
#[derive(Debug)]
pub struct DeviceRange {
    items: Vec<RangeItem>,
}

/// `v` is one of the values that `items` admit.
pub open spec fn range_contains(items: Seq<RangeItem>, v: int) -> bool {
    exists|i: int| 0 <= i < items.len() && #[trigger] in_item(items[i], v)
}

/// `r` is the admitted value nearest to `value`, the smaller one on a tie.
pub open spec fn is_nearest(items: Seq<RangeItem>, value: int, r: int) -> bool {
    &&& range_contains(items, r)
    &&& forall|i: int, v: int|
        0 <= i < items.len() && #[trigger] in_item(items[i], v) ==> abs_diff(r, value) <= abs_diff(
            v,
            value,
        ) && (abs_diff(r, value) == abs_diff(v, value) ==> r <= v)
}

/// `r` is the admitted value nearest to the fraction `num / den`, the
/// smaller one on a tie.
pub open spec fn is_nearest_ratio(items: Seq<RangeItem>, num: int, den: int, r: int) -> bool {
    &&& range_contains(items, r)
    &&& forall|i: int, v: int|
        0 <= i < items.len() && #[trigger] in_item(items[i], v) ==> abs_diff(den * r, num)
            <= abs_diff(den * v, num) && (abs_diff(den * r, num) == abs_diff(den * v, num) ==> r
            <= v)
}

/// Largest declared upper bound of the items, and at least 0.
pub open spec fn top_of(items: Seq<RangeItem>) -> int
    decreases items.len(),
{
    if items.len() == 0 {
        0
    } else {
        let t = top_of(items.drop_last());
        let u = item_top(items.last());
        if u > t {
            u
        } else {
            t
        }
    }
}

impl DeviceRange {
    pub closed spec fn items(&self) -> Seq<RangeItem> {
        self.items@
    }

    pub open spec fn wf(&self) -> bool {
        &&& self.items().len() > 0
        &&& forall|i: int| 0 <= i < self.items().len() ==> item_wf(#[trigger] self.items()[i])
    }

    /// A range of `items`; `None` when there are none, or one has reversed
    /// bounds or a step that is not positive.
    pub fn new(items: Vec<RangeItem>) -> (r: Option<DeviceRange>)
        ensures
            r is Some <==> (items@.len() > 0 && forall|i: int|
                0 <= i < items@.len() ==> item_wf(#[trigger] items@[i])),
            r is Some ==> r->0.items() == items@ && r->0.wf(),
    {
        if items.len() == 0 {
            return None;
        }
        let mut i: usize = 0;
        while i < items.len()
            invariant
                i <= items@.len(),
                forall|j: int| 0 <= j < i ==> item_wf(#[trigger] items@[j]),
            decreases items@.len() - i,
        {
            let ok = match items[i] {
                RangeItem::Interval(a, b) => a <= b,
                RangeItem::Value(_) => true,
                RangeItem::Step(a, b, s) => a <= b && s > 0,
            };
            if !ok {
                return None;
            }
            i = i + 1;
        }
        Some(DeviceRange { items })
    }

    /// Whether `value` is one of the values the range admits.
    pub fn contains(&self, value: i64) -> (r: bool)
        requires
            self.wf(),
        ensures
            r == range_contains(self.items(), value as int),
    {
        let mut i: usize = 0;
        while i < self.items.len()
            invariant
                self.wf(),
                i <= self.items@.len(),
                forall|j: int, v: int|
                    0 <= j < i && v == value ==> !#[trigger] in_item(self.items@[j], v),
            decreases self.items@.len() - i,
        {
            let hit = match self.items[i] {
                RangeItem::Interval(a, b) => a <= value && value <= b,
                RangeItem::Value(x) => value == x,
                RangeItem::Step(a, b, s) => a <= value && value <= b && s > 0 && ((value as i128)
                    - (a as i128)) % (s as i128) == 0,
            };
            if hit {
                assert(in_item(self.items@[i as int], value as int));
                return true;
            }
            assert(item_wf(self.items@[i as int]));
            i = i + 1;
        }
        false
    }

    /// The largest admitted value at most `lo`, and the smallest at least
    /// `hi`; with `hi <= lo + 1` every admitted value is one side or the
    /// other, so at least one exists.
    fn bounds(&self, lo: i64, hi: i64) -> (r: (Option<i64>, Option<i64>))
        requires
            self.wf(),
            hi <= lo + 1,
        ensures
            r.0 is Some ==> range_contains(self.items(), r.0->0 as int) && r.0->0 <= lo,
            r.1 is Some ==> range_contains(self.items(), r.1->0 as int) && r.1->0 >= hi,
            forall|j: int, v: int|
                0 <= j < self.items().len() && #[trigger] in_item(self.items()[j], v) && v <= lo
                    ==> r.0 is Some && v <= r.0->0,
            forall|j: int, v: int|
                0 <= j < self.items().len() && #[trigger] in_item(self.items()[j], v) && v >= hi
                    ==> r.1 is Some && v >= r.1->0,
            r.0 is Some || r.1 is Some,
    {
        let ghost items = self.items@;
        let mut lower: Option<i64> = None;
        let mut upper: Option<i64> = None;
        let mut i: usize = 0;
        while i < self.items.len()
            invariant
                self.wf(),
                items == self.items(),
                i <= items.len(),
                lower is Some ==> range_contains(items, lower->0 as int) && lower->0 <= lo,
                upper is Some ==> range_contains(items, upper->0 as int) && upper->0 >= hi,
                forall|j: int, v: int|
                    0 <= j < i && #[trigger] in_item(items[j], v) && v <= lo ==> lower is Some
                        && v <= lower->0,
                forall|j: int, v: int|
                    0 <= j < i && #[trigger] in_item(items[j], v) && v >= hi ==> upper is Some
                        && v >= upper->0,
            decreases items.len() - i,
        {
            let it = self.items[i];
            proof {
                lemma_item_below(it, lo as int);
                lemma_item_above(it, hi as int);
            }
            let b = below(&it, lo);
            let a = above(&it, hi);
            if let Some(x) = b {
                assert(in_item(items[i as int], x as int));
                match lower {
                    Some(l) => {
                        if x > l {
                            lower = Some(x);
                        }
                    },
                    None => {
                        lower = Some(x);
                    },
                }
            }
            if let Some(x) = a {
                assert(in_item(items[i as int], x as int));
                match upper {
                    Some(u) => {
                        if x < u {
                            upper = Some(x);
                        }
                    },
                    None => {
                        upper = Some(x);
                    },
                }
            }
            i = i + 1;
        }
        proof {
            let it = items[0];
            let w = match it {
                RangeItem::Interval(a, _) => a as int,
                RangeItem::Value(x) => x as int,
                RangeItem::Step(a, _, s) => {
                    lemma_step_member(a as int, s as int, 0);
                    a as int
                },
            };
            assert(in_item(items[0], w));
        }
        (lower, upper)
    }

    /// The admitted value nearest to `value`; on a tie the smaller one.
    pub fn closest(&self, value: i64) -> (r: i64)
        requires
            self.wf(),
        ensures
            is_nearest(self.items(), value as int, r as int),
    {
        let (lower, upper) = self.bounds(value, value);
        match (lower, upper) {
            (Some(l), Some(u)) => {
                if (value as i128) - (l as i128) <= (u as i128) - (value as i128) {
                    l
                } else {
                    u
                }
            },
            (Some(l), None) => l,
            (None, Some(u)) => u,
            (None, None) => value,
        }
    }

    /// The admitted value nearest to the fraction `num / den`, comparing
    /// `|den * v - num|`; on a tie the smaller one.
    pub fn closest_ratio(&self, num: i128, den: i64) -> (r: i64)
        requires
            self.wf(),
            den > 0,
            0 <= num <= (den as int) * (i64::MAX as int),
        ensures
            is_nearest_ratio(self.items(), num as int, den as int, r as int),
    {
        let ghost n = num as int;
        let ghost d = den as int;
        let ghost m = i64::MAX as int;
        let lo128 = num / (den as i128);
        proof {
            vstd::arithmetic::div_mod::lemma_fundamental_div_mod(n, d);
            vstd::arithmetic::div_mod::lemma_mod_bound(n, d);
            let q = n / d;
            assert(q <= m && q >= 0) by (nonlinear_arith)
                requires
                    n == d * q + n % d,
                    0 <= n % d < d,
                    0 <= n <= d * m,
                    d > 0,
            ;
        }
        let lo = lo128 as i64;
        proof {
            assert((lo as int) * d <= m * m && (lo as int) * d >= 0) by (nonlinear_arith)
                requires
                    0 <= lo <= m,
                    0 < d <= m,
            ;
        }
        let exact = (lo as i128) * (den as i128) == num;
        let ghost l0 = lo as int;
        proof {
            assert(n == d * l0 + n % d);
            if !exact {
                assert(l0 < m) by (nonlinear_arith)
                    requires
                        n == d * l0 + n % d,
                        0 <= n % d < d,
                        n <= d * m,
                        l0 * d != n,
                        d > 0,
                ;
            }
        }
        let hi: i64 = if exact {
            lo
        } else {
            lo + 1
        };
        let ghost h0 = hi as int;
        proof {
            assert(d * l0 <= n && n <= d * h0) by (nonlinear_arith)
                requires
                    n == d * l0 + n % d,
                    0 <= n % d < d,
                    h0 == l0 || h0 == l0 + 1,
                    h0 == l0 ==> l0 * d == n,
                    d > 0,
            ;
        }
        let (lower, upper) = self.bounds(lo, hi);
        let ghost items = self.items();
        proof {
            if lower is Some {
                let l = lower->0 as int;
                assert(d * l <= n && d * l >= d * i64::MIN) by (nonlinear_arith)
                    requires
                        l <= l0,
                        d * l0 <= n,
                        l >= i64::MIN,
                        d > 0,
                ;
            }
            if upper is Some {
                let u = upper->0 as int;
                assert(d * u >= n && d * u <= d * m) by (nonlinear_arith)
                    requires
                        u >= h0,
                        d * h0 >= n,
                        u <= m,
                        d > 0,
                ;
            }
            assert(d * m < 0x4000_0000_0000_0000_0000_0000_0000_0000 && d * (i64::MIN as int)
                > -0x4000_0000_0000_0000_0000_0000_0000_0000) by (nonlinear_arith)
                requires
                    0 < d <= m,
                    m == 0x7fff_ffff_ffff_ffff,
            ;
        }
        let r = match (lower, upper) {
            (Some(l), Some(u)) => {
                proof {
                    assert(d * (l as int) <= n && d * (l as int) >= d * (i64::MIN as int));
                    assert(d * (u as int) >= n && d * (u as int) <= d * m);
                    assert((l as int) * d == d * (l as int)) by (nonlinear_arith);
                    assert((u as int) * d == d * (u as int)) by (nonlinear_arith);
                }
                if num - (l as i128) * (den as i128) <= (u as i128) * (den as i128) - num {
                    l
                } else {
                    u
                }
            },
            (Some(l), None) => l,
            (None, Some(u)) => u,
            (None, None) => lo,
        };
        proof {
            let rr = r as int;
            assert forall|i: int, v: int|
                0 <= i < items.len() && #[trigger] in_item(items[i], v) implies abs_diff(
                d * rr,
                n,
            ) <= abs_diff(d * v, n) && (abs_diff(d * rr, n) == abs_diff(d * v, n) ==> rr <= v) by {
                if v <= l0 {
                    let l = lower->0 as int;
                    assert(d * v <= d * l && d * l <= n) by (nonlinear_arith)
                        requires
                            v <= l,
                            l <= l0,
                            d * l0 <= n,
                            d > 0,
                    ;
                    if upper is Some {
                        let u = upper->0 as int;
                        assert(d * u >= n && u >= v) by (nonlinear_arith)
                            requires
                                u >= h0,
                                d * h0 >= n,
                                h0 >= l0,
                                l0 >= v,
                                d > 0,
                        ;
                    }
                    assert(d * v == d * l ==> v == l) by (nonlinear_arith)
                        requires
                            d > 0,
                    ;
                } else {
                    assert(v >= h0);
                    let u = upper->0 as int;
                    assert(d * v >= d * u && d * u >= n) by (nonlinear_arith)
                        requires
                            v >= u,
                            u >= h0,
                            d * h0 >= n,
                            d > 0,
                    ;
                    assert(d * v == d * u ==> v == u) by (nonlinear_arith)
                        requires
                            d > 0,
                    ;
                    if lower is Some {
                        let l = lower->0 as int;
                        assert(d * l <= n && l <= v) by (nonlinear_arith)
                            requires
                                l <= l0,
                                d * l0 <= n,
                                l0 <= h0,
                                h0 <= v,
                                d > 0,
                        ;
                    }
                }
            }
        }
        r
    }

    /// The largest upper bound among the items, and at least 0.
    pub fn max_value(&self) -> (r: i64)
        ensures
            r == top_of(self.items()),
    {
        let mut best: i64 = 0;
        let mut i: usize = 0;
        while i < self.items.len()
            invariant
                i <= self.items@.len(),
                best == top_of(self.items@.take(i as int)),
            decreases self.items@.len() - i,
        {
            let t = match self.items[i] {
                RangeItem::Interval(_, b) => b,
                RangeItem::Value(x) => x,
                RangeItem::Step(_, b, _) => b,
            };
            assert(self.items@.take(i + 1).drop_last() =~= self.items@.take(i as int));
            if t > best {
                best = t;
            }
            i = i + 1;
        }
        assert(self.items@.take(i as int) =~= self.items@);
        best
    }
}

fn below(it: &RangeItem, value: i64) -> (r: Option<i64>)
    requires
        item_wf(*it),
    ensures
        r is Some == item_below(*it, value as int) is Some,
        r is Some ==> r->0 == item_below(*it, value as int)->0,
{
    match *it {
        RangeItem::Interval(a, b) => if value >= a {
            Some(if value < b { value } else { b })
        } else {
            None
        },
        RangeItem::Value(x) => if value >= x {
            Some(x)
        } else {
            None
        },
        RangeItem::Step(a, b, s) => if value >= a {
            let lim = if value < b { value } else { b };
            let k = ((lim as i128) - (a as i128)) / (s as i128);
            proof {
                lemma_floor_div((lim - a) as int, s as int, 0);
            }
            Some(((a as i128) + k * (s as i128)) as i64)
        } else {
            None
        },
    }
}

fn above(it: &RangeItem, value: i64) -> (r: Option<i64>)
    requires
        item_wf(*it),
    ensures
        r is Some == item_above(*it, value as int) is Some,
        r is Some ==> r->0 == item_above(*it, value as int)->0,
{
    match *it {
        RangeItem::Interval(a, b) => if value <= b {
            Some(if value > a { value } else { a })
        } else {
            None
        },
        RangeItem::Value(x) => if value <= x {
            Some(x)
        } else {
            None
        },
        RangeItem::Step(a, b, s) => if value <= a {
            Some(a)
        } else if value > b {
            None
        } else {
            let d = (value as i128) - (a as i128);
            let k = (d + (s as i128) - 1) / (s as i128);
            proof {
                lemma_ceil_div(d as int, s as int);

            }
            let c = (a as i128) + k * (s as i128);
            if c <= (b as i128) {
                Some(c as i64)
            } else {
                None
            }
        },
    }
}

} // verus!
