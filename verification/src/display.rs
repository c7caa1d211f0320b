//! Output selection for direct scanout: which mode the shared framebuffer uses,
//! which connectors mirror it at which mode, on which CRTC, and which EGL
//! config renders into it.
use vstd::prelude::*;

verus! {

/// What the selection reads of a display mode.
#[derive(Clone, Copy, Debug, PartialEq, Eq)]
pub struct ModeInfo {
    pub width: u16,
    pub height: u16,
    pub vrefresh: u32,
    /// The mode carries the PREFERRED mode-type flag.
    pub preferred: bool,
}

/// What the selection reads of a connector.
#[derive(Debug)]
pub struct ConnectorInfo {
    pub connected: bool,
    pub modes: Vec<ModeInfo>,
    /// The CRTC of the connector's current encoder, if it has one.
    pub current_crtc: Option<u32>,
}

/// One screen of the mirrored output: connector `connector` (an index into the
/// connector list) scans out on `crtc` with its mode number `mode`.
#[derive(Clone, Copy, Debug, PartialEq, Eq)]
pub struct OutputPlan {
    pub connector: usize,
    pub crtc: u32,
    pub mode: usize,
}

/// The refresh rate the mirrored screens aim for.
pub const TARGET_REFRESH: i32 = 60;

/// How far a mode's refresh rate is from 60 Hz, the rate read as an `i32`.
pub open spec fn refresh_distance(vrefresh: u32) -> int {
    let d = (vrefresh as i32) - TARGET_REFRESH;
    if d < 0 {
        -d
    } else {
        d
    }
}

/// Whether the distance of `vrefresh` from 60 Hz can be taken in `i32`.
pub open spec fn refresh_in_range(vrefresh: u32) -> bool {
    (vrefresh as i32) - TARGET_REFRESH >= i32::MIN
}

/// The distance of `vrefresh` from 60 Hz.
pub fn refresh_gap(vrefresh: u32) -> (gap: u32)
    requires
        refresh_in_range(vrefresh),
    ensures
        gap == refresh_distance(vrefresh),
{
    let d: i32 = (vrefresh as i32) - TARGET_REFRESH;
    if d < 0 {
        (-(d as i64)) as u32
    } else {
        d as u32
    }
}

/// A connector that can show the output: connected and offering modes.
pub open spec fn usable(c: ConnectorInfo) -> bool {
    c.connected && c.modes@.len() > 0
}

/// Index of the mode a connector shows by default: its first PREFERRED mode,
/// or its first mode when none is preferred.
pub open spec fn primary_mode(modes: Seq<ModeInfo>) -> int {
    if exists|i: int| 0 <= i < modes.len() && #[trigger] modes[i].preferred {
        choose|i: int|
            0 <= i < modes.len() && modes[i].preferred && forall|j: int|
                0 <= j < i ==> !#[trigger] modes[j].preferred
    } else {
        0
    }
}

/// Whether mode `m` has size `size`.
pub open spec fn has_size(m: ModeInfo, size: (u16, u16)) -> bool {
    m.width == size.0 && m.height == size.1
}

/// Mode `i` is the first of the modes of size `size` whose refresh rate is
/// closest to 60 Hz.
pub open spec fn is_closest_mode(modes: Seq<ModeInfo>, size: (u16, u16), i: int) -> bool {
    &&& 0 <= i < modes.len()
    &&& has_size(modes[i], size)
    &&& forall|j: int|
        0 <= j < modes.len() && has_size(modes[j], size) ==> refresh_distance(modes[i].vrefresh)
            <= refresh_distance(#[trigger] modes[j].vrefresh)
    &&& forall|j: int|
        0 <= j < i && has_size(modes[j], size) ==> refresh_distance(modes[i].vrefresh)
            < refresh_distance(#[trigger] modes[j].vrefresh)
}

/// The mode of size `size` closest to 60 Hz (the first on a tie), if any.
pub open spec fn closest_mode(modes: Seq<ModeInfo>, size: (u16, u16)) -> Option<int> {
    if exists|i: int| is_closest_mode(modes, size, i) {
        Some(choose|i: int| is_closest_mode(modes, size, i))
    } else {
        None
    }
}

/// CRTC number `i` is the first of `crtcs` that no screen took yet.
pub open spec fn is_first_free(used: Seq<u32>, crtcs: Seq<u32>, i: int) -> bool {
    &&& 0 <= i < crtcs.len()
    &&& !used.contains(crtcs[i])
    &&& forall|j: int| 0 <= j < i ==> used.contains(#[trigger] crtcs[j])
}

/// The CRTC a connector scans out on: its current one if no other screen took
/// it, else the first CRTC no screen took yet.
pub open spec fn crtc_choice(current: Option<u32>, used: Seq<u32>, crtcs: Seq<u32>) -> Option<u32> {
    if current matches Some(h) && !used.contains(h) {
        current
    } else if exists|i: int| is_first_free(used, crtcs, i) {
        Some(crtcs[choose|i: int| is_first_free(used, crtcs, i)])
    } else {
        None
    }
}

proof fn lemma_primary_mode_unique(modes: Seq<ModeInfo>, i: int)
    requires
        0 <= i < modes.len(),
        modes[i].preferred,
        forall|j: int| 0 <= j < i ==> !#[trigger] modes[j].preferred,
    ensures
        primary_mode(modes) == i,
{
    let k = choose|k: int|
        0 <= k < modes.len() && modes[k].preferred && forall|j: int|
            0 <= j < k ==> !#[trigger] modes[j].preferred;
    assert(0 <= k < modes.len() && modes[k].preferred);
    if k < i {
        assert(!modes[k].preferred);
    }
    if i < k {
        assert(!modes[i].preferred);
    }
}

/// Index of the mode a connector shows by default (see `primary_mode`).
pub fn primary_mode_index(modes: &Vec<ModeInfo>) -> (i: usize)
    requires
        modes@.len() > 0,
    ensures
        i == primary_mode(modes@),
        i < modes@.len(),
        (exists|j: int| 0 <= j < modes@.len() && #[trigger] modes@[j].preferred) ==> (
        modes@[i as int].preferred && forall|j: int| 0 <= j < i ==> !#[trigger] modes@[j].preferred),
        (forall|j: int| 0 <= j < modes@.len() ==> !#[trigger] modes@[j].preferred) ==> i == 0,
{
    let n = modes.len();
    for k in 0..n
        invariant
            n == modes@.len(),
            forall|j: int| 0 <= j < k ==> !#[trigger] modes@[j].preferred,
    {
        if modes[k].preferred {
            proof {
                lemma_primary_mode_unique(modes@, k as int);
            }
            return k;
        }
    }
    0
}

proof fn lemma_closest_mode_unique(modes: Seq<ModeInfo>, size: (u16, u16), i: int)
    requires
        is_closest_mode(modes, size, i),
    ensures
        closest_mode(modes, size) == Some(i),
{
    let k = choose|k: int| is_closest_mode(modes, size, k);
    assert(is_closest_mode(modes, size, k));
    if k < i {
        assert(refresh_distance(modes[i].vrefresh) < refresh_distance(modes[k].vrefresh));
    }
    if i < k {
        assert(refresh_distance(modes[k].vrefresh) < refresh_distance(modes[i].vrefresh));
    }
}

/// The mode of size `size` closest to 60 Hz, the first of them on a tie, or
/// `None` when no mode has that size.
pub fn closest_mode_index(modes: &Vec<ModeInfo>, size: (u16, u16)) -> (r: Option<usize>)
    requires
        forall|j: int|
            0 <= j < modes@.len() && has_size(#[trigger] modes@[j], size) ==> refresh_in_range(
                modes@[j].vrefresh,
            ),
    ensures
        match r {
            None => closest_mode(modes@, size) is None,
            Some(i) => closest_mode(modes@, size) == Some(i as int),
        },
        r matches Some(i) ==> i < modes@.len() && modes@[i as int].width == size.0
            && modes@[i as int].height == size.1,
        r is None <==> forall|j: int|
            0 <= j < modes@.len() ==> !(#[trigger] modes@[j].width == size.0 && modes@[j].height
                == size.1),
{
    let n = modes.len();
    let mut best: Option<usize> = None;
    let mut best_gap: u32 = 0;
    for k in 0..n
        invariant
            n == modes@.len(),
            forall|j: int|
                0 <= j < modes@.len() && has_size(#[trigger] modes@[j], size) ==> refresh_in_range(
                    modes@[j].vrefresh,
                ),
            best is None ==> forall|j: int| 0 <= j < k ==> !has_size(#[trigger] modes@[j], size),
            best matches Some(b) ==> {
                &&& b < k
                &&& has_size(modes@[b as int], size)
                &&& best_gap == refresh_distance(modes@[b as int].vrefresh)
                &&& forall|j: int|
                    0 <= j < k && has_size(modes@[j], size) ==> best_gap <= refresh_distance(
                        #[trigger] modes@[j].vrefresh,
                    )
                &&& forall|j: int|
                    0 <= j < b && has_size(modes@[j], size) ==> best_gap < refresh_distance(
                        #[trigger] modes@[j].vrefresh,
                    )
            },
    {
        let m = modes[k];
        if m.width == size.0 && m.height == size.1 {
            let gap = refresh_gap(m.vrefresh);
            if best.is_none() || gap < best_gap {
                best = Some(k);
                best_gap = gap;
            }
        }
    }
    match best {
        None => {
            assert(!exists|i: int| is_closest_mode(modes@, size, i));
            None
        },
        Some(b) => {
            proof {
                lemma_closest_mode_unique(modes@, size, b as int);
            }
            Some(b)
        },
    }
}

fn contains_crtc(v: &Vec<u32>, x: u32) -> (b: bool)
    ensures
        b == v@.contains(x),
{
    let n = v.len();
    for k in 0..n
        invariant
            n == v@.len(),
            forall|j: int| 0 <= j < k ==> v@[j] != x,
    {
        if v[k] == x {
            return true;
        }
    }
    false
}

/// The CRTC a connector scans out on (see `crtc_choice`).
pub fn pick_crtc(current: Option<u32>, used: &Vec<u32>, crtcs: &Vec<u32>) -> (r: Option<u32>)
    ensures
        r == crtc_choice(current, used@, crtcs@),
        r is None <==> (!(current matches Some(h) && !used@.contains(h)) && forall|j: int|
            0 <= j < crtcs@.len() ==> used@.contains(#[trigger] crtcs@[j])),
        (current matches Some(h) && !used@.contains(h)) ==> r == current,
        !(current matches Some(h) && !used@.contains(h)) ==> (r matches Some(c) ==> exists|i: int|
            0 <= i < crtcs@.len() && #[trigger] crtcs@[i] == c && !used@.contains(c) && forall|
                j: int,
            | 0 <= j < i ==> used@.contains(#[trigger] crtcs@[j])),
{
    if let Some(h) = current {
        if !contains_crtc(used, h) {
            return current;
        }
    }
    let n = crtcs.len();
    for k in 0..n
        invariant
            n == crtcs@.len(),
            !(current matches Some(h) && !used@.contains(h)),
            forall|j: int| 0 <= j < k ==> used@.contains(#[trigger] crtcs@[j]),
    {
        let c = crtcs[k];
        if !contains_crtc(used, c) {
            proof {
                assert(is_first_free(used@, crtcs@, k as int));
                let i = choose|i: int| is_first_free(used@, crtcs@, i);
                if i < k {
                    assert(used@.contains(crtcs@[i]));
                }
                if k < i {
                    assert(used@.contains(crtcs@[k as int]));
                }
            }
            return Some(c);
        }
    }
    None
}

/// The CRTCs already taken by the screens of `plan`.
pub open spec fn plan_crtcs(plan: Seq<OutputPlan>) -> Seq<u32> {
    plan.map_values(|o: OutputPlan| o.crtc)
}

/// The screens chosen among the first `n` connectors, in connector order: a
/// usable connector that offers a mode of size `size` joins on the mode of that
/// size closest to 60 Hz and on the CRTC `crtc_choice` gives it; any other
/// connector is skipped.
pub open spec fn plan_prefix(
    conns: Seq<ConnectorInfo>,
    crtcs: Seq<u32>,
    size: (u16, u16),
    n: nat,
) -> Seq<OutputPlan>
    decreases n,
{
    if n == 0 {
        Seq::empty()
    } else {
        let prev = plan_prefix(conns, crtcs, size, (n - 1) as nat);
        let c = conns[n - 1];
        if !usable(c) {
            prev
        } else {
            match closest_mode(c.modes@, size) {
                None => prev,
                Some(m) => match crtc_choice(c.current_crtc, plan_crtcs(prev), crtcs) {
                    None => prev,
                    Some(cr) => prev.push(
                        OutputPlan { connector: (n - 1) as usize, crtc: cr, mode: m as usize },
                    ),
                },
            }
        }
    }
}

/// The first usable connector, if any.
pub open spec fn first_usable(conns: Seq<ConnectorInfo>) -> Option<int> {
    if exists|i: int| 0 <= i < conns.len() && usable(#[trigger] conns[i]) {
        Some(
            choose|i: int|
                0 <= i < conns.len() && usable(conns[i]) && forall|j: int|
                    0 <= j < i ==> !usable(#[trigger] conns[j]),
        )
    } else {
        None
    }
}

/// The framebuffer size: that of the default mode of the first usable connector.
pub open spec fn frame_size(conns: Seq<ConnectorInfo>, first: int) -> (u16, u16) {
    let m = conns[first].modes@[primary_mode(conns[first].modes@)];
    (m.width, m.height)
}

/// Every mode of size `size` on a usable connector has a refresh rate whose
/// distance from 60 Hz can be taken in `i32`.
pub open spec fn refresh_rates_in_range(conns: Seq<ConnectorInfo>, size: (u16, u16)) -> bool {
    forall|i: int, j: int|
        0 <= i < conns.len() && usable(conns[i]) && 0 <= j < conns[i].modes@.len() && has_size(
            #[trigger] conns[i].modes@[j],
            size,
        ) ==> refresh_in_range(conns[i].modes@[j].vrefresh)
}

/// Why no output can be driven.
#[derive(Clone, Copy, Debug, PartialEq, Eq)]
pub enum DisplayError {
    /// No connector is connected with a mode to show.
    NoConnector,
    /// No connected screen got both a mode of the framebuffer size and a CRTC.
    NoUsableOutput,
}

/// The mirrored output: the shared framebuffer size and the screens showing it.
#[derive(Debug)]
pub struct DisplayPlan {
    pub width: u16,
    pub height: u16,
    pub outputs: Vec<OutputPlan>,
}

/// The first usable connector (see `first_usable`).
fn first_usable_index(conns: &Vec<ConnectorInfo>) -> (r: Option<usize>)
    ensures
        match r {
            None => first_usable(conns@) is None,
            Some(i) => first_usable(conns@) == Some(i as int) && i < conns@.len() && usable(
                conns@[i as int],
            ),
        },
{
    let n = conns.len();
    for k in 0..n
        invariant
            n == conns@.len(),
            forall|j: int| 0 <= j < k ==> !usable(#[trigger] conns@[j]),
    {
        if conns[k].connected && conns[k].modes.len() > 0 {
            proof {
                let i = choose|i: int|
                    0 <= i < conns@.len() && usable(conns@[i]) && forall|j: int|
                        0 <= j < i ==> !usable(#[trigger] conns@[j]);
                assert(0 <= i < conns@.len() && usable(conns@[i]));
                if i < k {
                    assert(!usable(conns@[i]));
                }
                if k < i {
                    assert(!usable(conns@[k as int]));
                }
            }
            return Some(k);
        }
    }
    assert(!exists|i: int| 0 <= i < conns@.len() && usable(#[trigger] conns@[i]));
    None
}

/// The screens that mirror a framebuffer of size `size` (see `plan_prefix`).
pub fn plan_outputs(conns: &Vec<ConnectorInfo>, crtcs: &Vec<u32>, size: (u16, u16)) -> (outputs:
    Vec<OutputPlan>)
    requires
        refresh_rates_in_range(conns@, size),
    ensures
        outputs@ == plan_prefix(conns@, crtcs@, size, conns@.len()),
        plan_well_formed(conns@, size, outputs@),
{
    let n = conns.len();
    let mut used: Vec<u32> = Vec::new();
    let mut outputs: Vec<OutputPlan> = Vec::new();
    assert(plan_crtcs(outputs@) =~= used@);
    for k in 0..n
        invariant
            n == conns@.len(),
            refresh_rates_in_range(conns@, size),
            outputs@ == plan_prefix(conns@, crtcs@, size, k as nat),
            used@ == plan_crtcs(outputs@),
            plan_well_formed(conns@, size, outputs@),
            forall|a: int| 0 <= a < outputs@.len() ==> #[trigger] outputs@[a].connector < k,
    {
        let c = &conns[k];
        if c.connected && c.modes.len() > 0 {
            proof {
                assert forall|j: int|
                    0 <= j < c.modes@.len() && has_size(
                        #[trigger] c.modes@[j],
                        size,
                    ) implies refresh_in_range(c.modes@[j].vrefresh) by {
                    assert(has_size(conns@[k as int].modes@[j], size));
                }
            }
            if let Some(m) = closest_mode_index(&c.modes, size) {
                if let Some(cr) = pick_crtc(c.current_crtc, &used, crtcs) {
                    proof {
                        lemma_crtc_choice_free(c.current_crtc, used@, crtcs@);
                        assert forall|a: int| 0 <= a < outputs@.len() implies #[trigger] outputs@[a].crtc
                            != cr by {
                            assert(used@[a] == outputs@[a].crtc);
                        }
                    }
                    let ghost prev = outputs@;
                    used.push(cr);
                    outputs.push(OutputPlan { connector: k, crtc: cr, mode: m });
                    assert(plan_crtcs(outputs@) =~= used@);
                    assert forall|a: int, b: int|
                        0 <= a < b < outputs@.len() implies #[trigger] outputs@[a].crtc
                        != #[trigger] outputs@[b].crtc by {
                        assert(outputs@[a] == prev[a]);
                        if b < prev.len() {
                            assert(outputs@[b] == prev[b]);
                        }
                    }
                    assert forall|a: int, b: int|
                        0 <= a < b < outputs@.len() implies #[trigger] outputs@[a].connector
                        < #[trigger] outputs@[b].connector by {
                        assert(outputs@[a] == prev[a]);
                        if b < prev.len() {
                            assert(outputs@[b] == prev[b]);
                        }
                    }
                    assert forall|a: int| 0 <= a < outputs@.len() implies #[trigger] outputs@[a].connector < k + 1 by {
                        if a < prev.len() {
                            assert(outputs@[a] == prev[a]);
                        }
                    }
                    assert forall|a: int| 0 <= a < outputs@.len() implies {
                        let o = #[trigger] outputs@[a];
                        &&& o.connector < conns@.len()
                        &&& usable(conns@[o.connector as int])
                        &&& o.mode < conns@[o.connector as int].modes@.len()
                        &&& conns@[o.connector as int].modes@[o.mode as int].width == size.0
                        &&& conns@[o.connector as int].modes@[o.mode as int].height == size.1
                    } by {
                        if a < prev.len() {
                            assert(outputs@[a] == prev[a]);
                        }
                    }
                }
            }
        }
    }
    outputs
}

/// Plans the mirrored output over the connectors `conns` and the CRTCs `crtcs`
/// of the card: the framebuffer takes the default mode size of the first usable
/// connector, and every usable connector with a mode of that size joins.
pub fn plan_display(conns: &Vec<ConnectorInfo>, crtcs: &Vec<u32>) -> (r: Result<
    DisplayPlan,
    DisplayError,
>)
    requires
        first_usable(conns@) matches Some(f) ==> refresh_rates_in_range(
            conns@,
            frame_size(conns@, f),
        ),
    ensures
        r matches Err(DisplayError::NoConnector) <==> first_usable(conns@) is None,
        r matches Err(DisplayError::NoUsableOutput) <==> (first_usable(conns@) matches Some(f)
            && plan_prefix(conns@, crtcs@, frame_size(conns@, f), conns@.len()).len() == 0),
        r matches Ok(p) ==> (first_usable(conns@) matches Some(f) && (p.width, p.height)
            == frame_size(conns@, f) && p.outputs@ == plan_prefix(
            conns@,
            crtcs@,
            frame_size(conns@, f),
            conns@.len(),
        ) && p.outputs@.len() > 0),
        r matches Ok(p) ==> forall|a: int|
            0 <= a < p.outputs@.len() ==> {
                let o = #[trigger] p.outputs@[a];
                &&& o.connector < conns@.len()
                &&& o.mode < conns@[o.connector as int].modes@.len()
                &&& conns@[o.connector as int].modes@[o.mode as int].width == p.width
                &&& conns@[o.connector as int].modes@[o.mode as int].height == p.height
            },
        r matches Ok(p) ==> forall|a: int, b: int|
            0 <= a < b < p.outputs@.len() ==> #[trigger] p.outputs@[a].crtc
                != #[trigger] p.outputs@[b].crtc,
{
    let first = match first_usable_index(conns) {
        None => return Err(DisplayError::NoConnector),
        Some(f) => f,
    };
    let modes = &conns[first].modes;
    let pm = primary_mode_index(modes);
    let size = (modes[pm].width, modes[pm].height);
    assert(size == frame_size(conns@, first as int));
    let outputs = plan_outputs(conns, crtcs, size);
    if outputs.len() == 0 {
        return Err(DisplayError::NoUsableOutput);
    }
    Ok(DisplayPlan { width: size.0, height: size.1, outputs })
}

/// The distance from 60 Hz is the absolute difference of the rate, read as an
/// `i32`, and 60.
pub proof fn refresh_distance_is_gap_to_60(vrefresh: u32)
    ensures
        (vrefresh as i32) >= 60 ==> refresh_distance(vrefresh) == (vrefresh as i32) - 60,
        (vrefresh as i32) < 60 ==> refresh_distance(vrefresh) == 60 - (vrefresh as i32),
{
}

/// The first of the first `n` modes of size `size` closest to 60 Hz.
spec fn closest_in_prefix(modes: Seq<ModeInfo>, size: (u16, u16), n: int) -> Option<int>
    decreases n,
{
    if n <= 0 {
        None
    } else {
        let b = closest_in_prefix(modes, size, n - 1);
        if has_size(modes[n - 1], size) && (b is None || refresh_distance(modes[n - 1].vrefresh)
            < refresh_distance(modes[b->0].vrefresh)) {
            Some(n - 1)
        } else {
            b
        }
    }
}

proof fn lemma_closest_in_prefix(modes: Seq<ModeInfo>, size: (u16, u16), n: int)
    requires
        0 <= n <= modes.len(),
    ensures
        match closest_in_prefix(modes, size, n) {
            None => forall|j: int| 0 <= j < n ==> !has_size(#[trigger] modes[j], size),
            Some(b) => {
                &&& 0 <= b < n
                &&& has_size(modes[b], size)
                &&& forall|j: int|
                    0 <= j < n && has_size(modes[j], size) ==> refresh_distance(modes[b].vrefresh)
                        <= refresh_distance(#[trigger] modes[j].vrefresh)
                &&& forall|j: int|
                    0 <= j < b && has_size(modes[j], size) ==> refresh_distance(modes[b].vrefresh)
                        < refresh_distance(#[trigger] modes[j].vrefresh)
            },
        },
    decreases n,
{
    if n > 0 {
        lemma_closest_in_prefix(modes, size, n - 1);
    }
}

/// The mode chosen for a framebuffer of size `size` has exactly that width and
/// that height, and among the modes of exactly that width and height it is the
/// first whose refresh rate is closest to 60 Hz; there is none exactly when no
/// mode has both that width and that height.
pub proof fn closest_mode_exact(modes: Seq<ModeInfo>, size: (u16, u16))
    ensures
        closest_mode(modes, size) matches Some(i) ==> {
            &&& 0 <= i < modes.len()
            &&& modes[i].width == size.0
            &&& modes[i].height == size.1
            &&& forall|j: int|
                0 <= j < modes.len() && modes[j].width == size.0 && modes[j].height == size.1
                    ==> refresh_distance(modes[i].vrefresh) <= refresh_distance(
                    #[trigger] modes[j].vrefresh,
                )
            &&& forall|j: int|
                0 <= j < i && modes[j].width == size.0 && modes[j].height == size.1
                    ==> refresh_distance(modes[i].vrefresh) < refresh_distance(
                    #[trigger] modes[j].vrefresh,
                )
        },
        closest_mode(modes, size) is None <==> forall|j: int|
            0 <= j < modes.len() ==> !(#[trigger] modes[j].width == size.0 && modes[j].height
                == size.1),
{
    lemma_closest_in_prefix(modes, size, modes.len() as int);
    match closest_in_prefix(modes, size, modes.len() as int) {
        Some(b) => {
            assert(is_closest_mode(modes, size, b));
            lemma_closest_mode_unique(modes, size, b);
        },
        None => {
            assert(!exists|i: int| is_closest_mode(modes, size, i));
        },
    }
}

/// A chosen CRTC is free: not taken by an earlier screen.
proof fn lemma_crtc_choice_free(current: Option<u32>, used: Seq<u32>, crtcs: Seq<u32>)
    ensures
        crtc_choice(current, used, crtcs) matches Some(c) ==> !used.contains(c),
{
    if !(current matches Some(h) && !used.contains(h)) {
        if exists|i: int| is_first_free(used, crtcs, i) {
            let i = choose|i: int| is_first_free(used, crtcs, i);
            assert(is_first_free(used, crtcs, i));
        }
    }
}

/// The screens of a plan: no two share a CRTC, each comes from a usable
/// connector (listed in increasing connector order, so no connector twice), and
/// each shows one of its connector's modes of the framebuffer size.
pub open spec fn plan_well_formed(
    conns: Seq<ConnectorInfo>,
    size: (u16, u16),
    plan: Seq<OutputPlan>,
) -> bool {
    &&& forall|a: int, b: int|
        0 <= a < b < plan.len() ==> #[trigger] plan[a].crtc != #[trigger] plan[b].crtc
    &&& forall|a: int, b: int|
        0 <= a < b < plan.len() ==> #[trigger] plan[a].connector < #[trigger] plan[b].connector
    &&& forall|a: int|
        0 <= a < plan.len() ==> {
            let o = #[trigger] plan[a];
            &&& o.connector < conns.len()
            &&& usable(conns[o.connector as int])
            &&& o.mode < conns[o.connector as int].modes@.len()
            &&& conns[o.connector as int].modes@[o.mode as int].width == size.0
            &&& conns[o.connector as int].modes@[o.mode as int].height == size.1
        }
}

proof fn lemma_closest_mode_has_size(modes: Seq<ModeInfo>, size: (u16, u16))
    ensures
        closest_mode(modes, size) matches Some(m) ==> 0 <= m < modes.len() && has_size(
            modes[m],
            size,
        ),
{
    if exists|i: int| is_closest_mode(modes, size, i) {
        let m = choose|i: int| is_closest_mode(modes, size, i);
        assert(is_closest_mode(modes, size, m));
    }
}

/// Every plan that `plan_prefix` makes is well formed: the mirrored screens
/// never share a CRTC, never repeat a connector, and all show a mode of the
/// framebuffer size.
pub proof fn plan_prefix_well_formed(
    conns: Seq<ConnectorInfo>,
    crtcs: Seq<u32>,
    size: (u16, u16),
    n: nat,
)
    requires
        n <= conns.len() <= usize::MAX,
        forall|i: int| 0 <= i < conns.len() ==> #[trigger] conns[i].modes@.len() <= usize::MAX,
    ensures
        plan_well_formed(conns, size, plan_prefix(conns, crtcs, size, n)),
        forall|a: int|
            0 <= a < plan_prefix(conns, crtcs, size, n).len() ==> #[trigger] plan_prefix(
                conns,
                crtcs,
                size,
                n,
            )[a].connector < n,
    decreases n,
{
    if n > 0 {
        let prev = plan_prefix(conns, crtcs, size, (n - 1) as nat);
        plan_prefix_well_formed(conns, crtcs, size, (n - 1) as nat);
        let c = conns[n - 1];
        if usable(c) {
            lemma_closest_mode_has_size(c.modes@, size);
            if let Some(m) = closest_mode(c.modes@, size) {
                lemma_crtc_choice_free(c.current_crtc, plan_crtcs(prev), crtcs);
                if let Some(cr) = crtc_choice(c.current_crtc, plan_crtcs(prev), crtcs) {
                    let next = prev.push(
                        OutputPlan { connector: (n - 1) as usize, crtc: cr, mode: m as usize },
                    );
                    assert(next == plan_prefix(conns, crtcs, size, n));
                    assert forall|a: int| 0 <= a < prev.len() implies #[trigger] prev[a].crtc
                        != cr by {
                        assert(plan_crtcs(prev)[a] == prev[a].crtc);
                    }
                    let o = next[prev.len() as int];
                    assert forall|a: int, b: int|
                        0 <= a < b < next.len() implies #[trigger] next[a].crtc
                        != #[trigger] next[b].crtc by {
                        if b == prev.len() {
                            assert(next[a] == prev[a]);
                        } else {
                            assert(next[a] == prev[a] && next[b] == prev[b]);
                        }
                    }
                    assert forall|a: int, b: int|
                        0 <= a < b < next.len() implies #[trigger] next[a].connector
                        < #[trigger] next[b].connector by {
                        assert(next[a] == prev[a]);
                        assert(prev[a].connector < n - 1);
                        if b < prev.len() {
                            assert(next[b] == prev[b]);
                        }
                    }
                    assert forall|a: int| 0 <= a < next.len() implies {
                        let o = #[trigger] next[a];
                        &&& o.connector < conns.len()
                        &&& usable(conns[o.connector as int])
                        &&& o.mode < conns[o.connector as int].modes@.len()
                        &&& has_size(conns[o.connector as int].modes@[o.mode as int], size)
                    } by {
                        if a < prev.len() {
                            assert(next[a] == prev[a]);
                        } else {
                            assert(m < c.modes@.len() && has_size(c.modes@[m], size));
                        }
                    }
                    assert(plan_well_formed(conns, size, next));
                }
            }
        }
    }
}

/// The native visual id of the XRGB8888 scanout format (fourcc `XR24`), the
/// 8-bit-per-channel format the framebuffer is added with.
pub const XRGB8888_VISUAL: i32 = 0x3432_5258;

/// Config `i` is the first whose native visual is XRGB8888.
pub open spec fn is_first_xrgb(visual_ids: Seq<i32>, i: int) -> bool {
    &&& 0 <= i < visual_ids.len()
    &&& visual_ids[i] == XRGB8888_VISUAL
    &&& forall|j: int| 0 <= j < i ==> #[trigger] visual_ids[j] != XRGB8888_VISUAL
}

/// Picks the EGL config to render with, given the native visual id of each
/// matching config (0 where the query failed): the first XRGB8888 one, else
/// the first config; `None` when there is no config at all.
pub fn pick_egl_config(visual_ids: &Vec<i32>) -> (r: Option<usize>)
    ensures
        r is None <==> visual_ids@.len() == 0,
        r matches Some(i) ==> if exists|j: int| is_first_xrgb(visual_ids@, j) {
            is_first_xrgb(visual_ids@, i as int)
        } else {
            i == 0
        },
        r matches Some(i) ==> i < visual_ids@.len(),
        r matches Some(i) ==> (exists|j: int|
            0 <= j < visual_ids@.len() && #[trigger] visual_ids@[j] == 0x3432_5258i32) ==> (
        visual_ids@[i as int] == 0x3432_5258i32 && forall|j: int|
            0 <= j < i ==> #[trigger] visual_ids@[j] != 0x3432_5258i32),
        r matches Some(i) ==> (forall|j: int|
            0 <= j < visual_ids@.len() ==> #[trigger] visual_ids@[j] != 0x3432_5258i32) ==> i == 0,
{
    let n = visual_ids.len();
    if n == 0 {
        return None;
    }
    for k in 0..n
        invariant
            n == visual_ids@.len(),
            forall|j: int| 0 <= j < k ==> #[trigger] visual_ids@[j] != XRGB8888_VISUAL,
    {
        if visual_ids[k] == XRGB8888_VISUAL {
            assert(is_first_xrgb(visual_ids@, k as int));
            return Some(k);
        }
    }
    assert forall|j: int| !is_first_xrgb(visual_ids@, j) by {
        if 0 <= j < visual_ids@.len() {
            assert(visual_ids@[j] != XRGB8888_VISUAL);
        }
    }
    Some(0)
}

/// The config chosen when some config has the XRGB8888 native visual (`XR24`,
/// 0x3432_5258) is the first with exactly that visual id.
pub proof fn first_xrgb_is_first_xr24(visual_ids: Seq<i32>, i: int)
    ensures
        is_first_xrgb(visual_ids, i) <==> (0 <= i < visual_ids.len() && visual_ids[i]
            == 0x3432_5258i32 && forall|j: int|
            0 <= j < i ==> #[trigger] visual_ids[j] != 0x3432_5258i32),
{
}

} // verus!
