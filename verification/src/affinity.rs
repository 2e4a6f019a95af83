//! Process-affinity masks derived from the CPU topology: every core but
//! physical core 0, only performance cores, only CCD 0, or an explicit hex
//! mask. A mask that selects no core, every core, or needs more than one
//! processor group is refused.

use crate::error::{err_msg, err_view, msg_view, Error, ErrorTag};
use crate::module::AffinityMode;
use vstd::prelude::*;

verus! {

broadcast use vstd::string::group_string_axioms;

/// One physical core and the logical processors on it.
#[derive(Clone, Debug)]
pub struct CoreGroup {
    pub physical_id: u32,
    pub logical_ids: Vec<u32>,
    pub is_efficiency: bool,
    pub ccd: Option<u32>,
}

/// The CPU topology: its physical cores, in order.
#[derive(Clone, Debug)]
pub struct CpuTopology {
    pub cores: Vec<CoreGroup>,
    pub smt_enabled: bool,
    pub group_count: u32,
}

/// Which cores a mode takes.
#[derive(Clone, Copy, Debug, PartialEq, Eq, Structural)]
pub enum CoreSelection {
    All,
    PhysicalZero,
    Performance,
    CcdZero,
}

pub open spec fn selects(sel: CoreSelection, c: CoreGroup) -> bool {
    match sel {
        CoreSelection::All => true,
        CoreSelection::PhysicalZero => c.physical_id == 0,
        CoreSelection::Performance => !c.is_efficiency,
        CoreSelection::CcdZero => c.ccd == Some(0u32),
    }
}

/// The logical ids of the selected cores, core by core.
pub open spec fn selected_ids(cores: Seq<CoreGroup>, sel: CoreSelection) -> Seq<u32>
    decreases cores.len(),
{
    if cores.len() == 0 {
        seq![]
    } else {
        selected_ids(cores.drop_last(), sel) + if selects(sel, cores.last()) {
            cores.last().logical_ids@
        } else {
            Seq::<u32>::empty()
        }
    }
}

/// The mask with a bit set for every id below 64.
pub open spec fn mask_of(ids: Seq<u32>) -> u64
    decreases ids.len(),
{
    if ids.len() == 0 {
        0
    } else {
        let acc = mask_of(ids.drop_last());
        if ids.last() < 64 {
            acc | (1u64 << ids.last())
        } else {
            acc
        }
    }
}

fn push_ids(out: &mut Vec<u32>, ids: &Vec<u32>)
    ensures
        final(out)@ == old(out)@ + ids@,
{
    let ghost start = out@;
    let mut i: usize = 0;
    while i < ids.len()
        invariant
            i <= ids.len(),
            out@ == start + ids@.take(i as int),
        decreases ids.len() - i,
    {
        out.push(ids[i]);
        i += 1;
        assert(ids@.take(i as int) =~= ids@.take(i - 1).push(ids@[i - 1]));
    }
    assert(ids@.take(ids.len() as int) =~= ids@);
}

fn selects_exec(sel: CoreSelection, c: &CoreGroup) -> (b: bool)
    ensures
        b == selects(sel, *c),
{
    match sel {
        CoreSelection::All => true,
        CoreSelection::PhysicalZero => c.physical_id == 0,
        CoreSelection::Performance => !c.is_efficiency,
        CoreSelection::CcdZero => match c.ccd {
            Some(x) => x == 0,
            None => false,
        },
    }
}

impl CpuTopology {
    /// The logical ids of the cores `sel` takes, in core order.
    pub fn logical_ids(&self, sel: CoreSelection) -> (r: Vec<u32>)
        ensures
            r@ == selected_ids(self.cores@, sel),
    {
        let mut out: Vec<u32> = Vec::new();
        let mut i: usize = 0;
        while i < self.cores.len()
            invariant
                i <= self.cores.len(),
                out@ == selected_ids(self.cores@.take(i as int), sel),
            decreases self.cores.len() - i,
        {
            assert(self.cores@.take(i + 1).drop_last() =~= self.cores@.take(i as int));
            assert(self.cores@.take(i + 1).last() == self.cores@[i as int]);
            if selects_exec(sel, &self.cores[i]) {
                push_ids(&mut out, &self.cores[i].logical_ids);
            } else {
                assert(out@ =~= out@ + Seq::<u32>::empty());
            }
            i += 1;
        }
        assert(self.cores@.take(i as int) =~= self.cores@);
        out
    }

    /// Every logical processor id.
    pub fn all_logical_ids(&self) -> (r: Vec<u32>)
        ensures
            r@ == selected_ids(self.cores@, CoreSelection::All),
    {
        self.logical_ids(CoreSelection::All)
    }

    /// The logical processors of physical core 0 (both SMT siblings when
    /// SMT is on).
    pub fn physical_core0_logical_ids(&self) -> (r: Vec<u32>)
        ensures
            r@ == selected_ids(self.cores@, CoreSelection::PhysicalZero),
    {
        self.logical_ids(CoreSelection::PhysicalZero)
    }
}

/// The mask with a bit set for every id below 64 (larger ids are ignored).
fn mask_from_ids(ids: &Vec<u32>) -> (m: u64)
    ensures
        m == mask_of(ids@),
{
    let mut acc: u64 = 0;
    let mut i: usize = 0;
    while i < ids.len()
        invariant
            i <= ids.len(),
            acc == mask_of(ids@.take(i as int)),
        decreases ids.len() - i,
    {
        assert(ids@.take(i + 1).drop_last() =~= ids@.take(i as int));
        assert(ids@.take(i + 1).last() == ids@[i as int]);
        let id = ids[i];
        if id < 64 {
            acc = acc | (1u64 << id);
        }
        i += 1;
    }
    assert(ids@.take(i as int) =~= ids@);
    acc
}

/// The value of one hexadecimal digit.
pub open spec fn hex_digit(c: char) -> Option<int> {
    if '0' <= c && c <= '9' {
        Some(c as int - 48)
    } else if 'a' <= c && c <= 'f' {
        Some(c as int - 87)
    } else if 'A' <= c && c <= 'F' {
        Some(c as int - 55)
    } else {
        None
    }
}

pub open spec fn all_hex(cs: Seq<char>) -> bool {
    forall|i: int| 0 <= i < cs.len() ==> #[trigger] hex_digit(cs[i]) is Some
}

/// The value of a run of hexadecimal digits.
pub open spec fn hex_value(cs: Seq<char>) -> int
    decreases cs.len(),
{
    if cs.len() == 0 {
        0
    } else {
        hex_value(cs.drop_last()) * 16 + hex_digit(cs.last())->0
    }
}

/// `u64::from_str_radix(s, 16)`: an optional `+` and at least one hex digit,
/// with a value that fits.
pub open spec fn parse_hex_u64(s: Seq<char>) -> Option<u64> {
    let d = if s.len() > 0 && s[0] == '+' {
        s.drop_first()
    } else {
        s
    };
    if d.len() > 0 && all_hex(d) && hex_value(d) <= u64::MAX {
        Some(hex_value(d) as u64)
    } else {
        None
    }
}

/// `s` with every leading copy of `pre` removed (`trim_start_matches`).
pub open spec fn trim_start(s: Seq<char>, pre: Seq<char>) -> Seq<char>
    decreases s.len(),
{
    if pre.len() > 0 && s.len() >= pre.len() && s.subrange(0, pre.len() as int) == pre {
        trim_start(s.skip(pre.len() as int), pre)
    } else {
        s
    }
}

/// The mask a mode selects before the checks, or why there is none.
pub open spec fn raw_mask(mode: AffinityMode, mask_hex: Option<Seq<char>>, topo: CpuTopology) -> Result<
    u64,
    Seq<char>,
> {
    let all = mask_of(selected_ids(topo.cores@, CoreSelection::All));
    match mode {
        AffinityMode::ExcludeCore0 => Ok(
            all & !mask_of(selected_ids(topo.cores@, CoreSelection::PhysicalZero)),
        ),
        AffinityMode::PcoreOnly => Ok(mask_of(selected_ids(topo.cores@, CoreSelection::Performance))),
        AffinityMode::Ccd0 => Ok(mask_of(selected_ids(topo.cores@, CoreSelection::CcdZero))),
        AffinityMode::ExplicitMask => match mask_hex {
            None => Err("explicit_mask requires mask_hex"@),
            Some(s) => match parse_hex_u64(trim_start(trim_start(s, "0x"@), "0X"@)) {
                Some(m) => Ok(m),
                None => Err("mask_hex is not valid hex"@),
            },
        },
    }
}

/// The affinity mask for `mode` on `topo`, or the reason it is refused.
pub open spec fn affinity_mask(mode: AffinityMode, mask_hex: Option<Seq<char>>, topo: CpuTopology) -> Result<
    u64,
    Seq<char>,
> {
    let all = mask_of(selected_ids(topo.cores@, CoreSelection::All));
    match raw_mask(mode, mask_hex, topo) {
        Err(m) => Err(m),
        Ok(mask) => if mask & all == 0 {
            Err("affinity mask selects zero cores"@)
        } else if mask & all == all {
            Err("affinity mask selects all cores (no-op)"@)
        } else if topo.group_count > 1 {
            Err("multi-processor-group affinity is not supported in M1"@)
        } else {
            Ok(mask)
        },
    }
}

fn starts_with_at(s: &Vec<char>, at: usize, pre: &Vec<char>) -> (b: bool)
    requires
        at <= s.len(),
    ensures
        b == (s.len() - at >= pre.len() && s@.skip(at as int).subrange(0, pre.len() as int)
            == pre@),
{
    if s.len() - at < pre.len() {
        return false;
    }
    let mut k: usize = 0;
    while k < pre.len()
        invariant
            k <= pre.len(),
            at + pre.len() <= s.len(),
            forall|q: int| 0 <= q < k ==> s@[at + q] == pre@[q],
        decreases pre.len() - k,
    {
        if s[at + k] != pre[k] {
            assert(s@.skip(at as int).subrange(0, pre.len() as int)[k as int] != pre@[k as int]);
            return false;
        }
        k += 1;
    }
    assert(s@.skip(at as int).subrange(0, pre.len() as int) =~= pre@);
    true
}

/// The index from which `s` has no more leading copies of `pre`.
fn trim_start_index(s: &Vec<char>, from: usize, pre: &Vec<char>) -> (r: usize)
    requires
        from <= s.len(),
    ensures
        from <= r <= s.len(),
        s@.skip(r as int) == trim_start(s@.skip(from as int), pre@),
{
    let mut at = from;
    while pre.len() > 0 && starts_with_at(s, at, pre)
        invariant
            from <= at <= s.len(),
            trim_start(s@.skip(from as int), pre@) == trim_start(s@.skip(at as int), pre@),
        decreases s.len() - at,
    {
        assert(s@.skip(at as int).skip(pre.len() as int) =~= s@.skip(at + pre.len()));
        at = at + pre.len();
    }
    at
}

proof fn lemma_hex_value_prefix_grows(cs: Seq<char>, k: int)
    requires
        0 <= k <= cs.len(),
        all_hex(cs),
    ensures
        hex_value(cs.take(k)) <= hex_value(cs),
        hex_value(cs.take(k)) >= 0,
    decreases cs.len() - k,
{
    if k < cs.len() {
        lemma_hex_value_prefix_grows(cs, k + 1);
        let t = cs.take(k + 1);
        assert(t.drop_last() =~= cs.take(k));
        assert(hex_digit(cs[k]) is Some);
        assert(t.last() == cs[k]);
    } else {
        assert(cs.take(k) =~= cs);
        lemma_hex_value_nonneg(cs);
    }
}

proof fn lemma_hex_value_nonneg(cs: Seq<char>)
    requires
        all_hex(cs),
    ensures
        hex_value(cs) >= 0,
    decreases cs.len(),
{
    if cs.len() > 0 {
        assert(all_hex(cs.drop_last())) by {
            assert forall|i: int| 0 <= i < cs.drop_last().len() implies #[trigger] hex_digit(
                cs.drop_last()[i],
            ) is Some by {
                assert(cs.drop_last()[i] == cs[i]);
            }
        }
        lemma_hex_value_nonneg(cs.drop_last());
        assert(hex_digit(cs[cs.len() - 1]) is Some);
    }
}

fn hex_digit_exec(c: char) -> (r: Option<u64>)
    ensures
        match r {
            Some(v) => hex_digit(c) == Some(v as int) && v < 16,
            None => hex_digit(c) is None,
        },
{
    if '0' <= c && c <= '9' {
        Some((c as u64) - 48)
    } else if 'a' <= c && c <= 'f' {
        Some((c as u64) - 87)
    } else if 'A' <= c && c <= 'F' {
        Some((c as u64) - 55)
    } else {
        None
    }
}

/// `u64::from_str_radix(s[from..], 16)`.
fn parse_hex_from(s: &Vec<char>, from: usize) -> (r: Option<u64>)
    requires
        from <= s.len(),
    ensures
        r == parse_hex_u64(s@.skip(from as int)),
{
    let ghost t = s@.skip(from as int);
    let start = if from < s.len() && s[from] == '+' {
        from + 1
    } else {
        from
    };
    let ghost d = s@.skip(start as int);
    assert(d =~= (if t.len() > 0 && t[0] == '+' {
        t.drop_first()
    } else {
        t
    }));
    if start == s.len() {
        return None;
    }
    let mut val: u64 = 0;
    let mut k: usize = start;
    assert(parse_hex_u64(s@.skip(from as int)) == (if d.len() > 0 && all_hex(d) && hex_value(d)
        <= u64::MAX {
        Some(hex_value(d) as u64)
    } else {
        None
    }));
    while k < s.len()
        invariant
            start <= k <= s.len(),
            start < s.len(),
            d == s@.skip(start as int),
            d.len() > 0,
            parse_hex_u64(s@.skip(from as int)) == (if all_hex(d) && hex_value(d) <= u64::MAX {
                Some(hex_value(d) as u64)
            } else {
                None
            }),
            all_hex(d.take(k - start)),
            val as int == hex_value(d.take(k - start)),
        decreases s.len() - k,
    {
        let ghost prev = d.take(k - start);
        let ghost next = d.take(k - start + 1);
        assert(next.drop_last() =~= prev);
        assert(next.last() == s@[k as int]);
        match hex_digit_exec(s[k]) {
            None => {
                assert(!all_hex(d)) by {
                    assert(d[k - start] == s@[k as int]);
                }
                return None;
            },
            Some(v) => {
                assert(all_hex(next)) by {
                    assert forall|i: int| 0 <= i < next.len() implies #[trigger] hex_digit(
                        next[i],
                    ) is Some by {
                        if i < next.len() - 1 {
                            assert(next[i] == prev[i]);
                        }
                    }
                }
                if val > (u64::MAX - v) / 16 {
                    proof {
                        assert(hex_value(next) > u64::MAX) by (nonlinear_arith)
                            requires
                                hex_value(next) == val * 16 + v,
                                val > (u64::MAX - v) / 16,
                                v < 16,
                        ;
                        if all_hex(d) {
                            lemma_hex_value_prefix_grows(d, k - start + 1);
                        }
                    }
                    return None;
                }
                proof {
                    assert(val * 16 + v <= u64::MAX) by (nonlinear_arith)
                        requires
                            val <= (u64::MAX - v) / 16,
                            v < 16,
                    ;
                }
                val = val * 16 + v;
            },
        }
        k += 1;
    }
    assert(d.take(k - start) =~= d);
    Some(val)
}

fn affinity_error(text: &str) -> (r: Result<u64, Error>)
    ensures
        r matches Err(e) && err_view(e) == msg_view(text@),
{
    Err(err_msg(text))
}

/// The affinity mask for `mode` on `topo`: a mask that selects none of the
/// topology's logical processors, or all of them, or a topology of more
/// than one processor group is refused.
pub fn compute_mask(mode: AffinityMode, mask_hex: Option<&str>, topo: &CpuTopology) -> (r: Result<
    u64,
    Error,
>)
    ensures
        match r {
            Ok(m) => affinity_mask(mode, opt_view(mask_hex), *topo) == Ok::<u64, Seq<char>>(m),
            Err(e) => err_view(e).0 == ErrorTag::Msg && affinity_mask(mode, opt_view(mask_hex), *topo)
                == Err::<u64, Seq<char>>(err_view(e).1),
        },
{
    let all_ids = topo.all_logical_ids();
    let all = mask_from_ids(&all_ids);
    let mask = match mode {
        AffinityMode::ExcludeCore0 => {
            let drop_ids = topo.physical_core0_logical_ids();
            let drop = mask_from_ids(&drop_ids);
            all & !drop
        },
        AffinityMode::PcoreOnly => {
            let ids = topo.logical_ids(CoreSelection::Performance);
            mask_from_ids(&ids)
        },
        AffinityMode::Ccd0 => {
            let ids = topo.logical_ids(CoreSelection::CcdZero);
            mask_from_ids(&ids)
        },
        AffinityMode::ExplicitMask => {
            let s = match mask_hex {
                Some(s) => s,
                None => return affinity_error("explicit_mask requires mask_hex"),
            };
            let cs = crate::text::chars_of(s);
            let p0x = crate::text::chars_of("0x");
            let p0X = crate::text::chars_of("0X");
            assert(cs@.skip(0) =~= cs@);
            let a = trim_start_index(&cs, 0, &p0x);
            let b = trim_start_index(&cs, a, &p0X);
            match parse_hex_from(&cs, b) {
                Some(m) => m,
                None => return affinity_error("mask_hex is not valid hex"),
            }
        },
    };
    if mask & all == 0 {
        return affinity_error("affinity mask selects zero cores");
    }
    if mask & all == all {
        return affinity_error("affinity mask selects all cores (no-op)");
    }
    if topo.group_count > 1 {
        return affinity_error("multi-processor-group affinity is not supported in M1");
    }
    Ok(mask)
}

/// An optional string as its characters.
pub open spec fn opt_view(s: Option<&str>) -> Option<Seq<char>> {
    match s {
        Some(t) => Some(t@),
        None => None,
    }
}

/// A mask `compute_mask` accepts selects at least one of the topology's
/// logical processors and not all of them, on a single processor group.
pub proof fn lemma_accepted_mask_is_proper(
    mode: AffinityMode,
    mask_hex: Option<Seq<char>>,
    topo: CpuTopology,
)
    ensures
        affinity_mask(mode, mask_hex, topo) matches Ok(m) ==> {
            let all = mask_of(selected_ids(topo.cores@, CoreSelection::All));
            &&& m & all != 0
            &&& m & all != all
            &&& m != 0
            &&& m != all
            &&& topo.group_count <= 1
        },
{
    let all = mask_of(selected_ids(topo.cores@, CoreSelection::All));
    if let Ok(m) = affinity_mask(mode, mask_hex, topo) {
        assert(m == 0 ==> m & all == 0) by (bit_vector);
        assert(m == all ==> m & all == all) by (bit_vector);
    }
}

/// Bit `b` of `m` is set.
pub open spec fn has_bit(m: u64, b: u64) -> bool {
    (m >> b) & 1u64 == 1u64
}

/// Some core of `cores` on CCD 0 has logical processor `id`.
pub open spec fn on_ccd0(cores: Seq<CoreGroup>, id: u32) -> bool {
    exists|i: int, j: int|
        0 <= i < cores.len() && cores[i].ccd == Some(0u32) && 0 <= j < cores[i].logical_ids@.len()
            && #[trigger] cores[i].logical_ids@[j] == id
}

/// Some core of `cores` has logical processor `id`.
pub open spec fn in_topology(cores: Seq<CoreGroup>, id: u32) -> bool {
    exists|i: int, j: int|
        0 <= i < cores.len() && 0 <= j < cores[i].logical_ids@.len() && #[trigger] cores[i].logical_ids@[j] == id
}

proof fn lemma_bit_of_or_shift(acc: u64, x: u32, b: u64)
    by (bit_vector)
    requires
        x < 64,
        b < 64,
    ensures
        has_bit(acc | (1u64 << x), b) == (has_bit(acc, b) || x as u64 == b),
{
}

proof fn lemma_bit_of_zero(b: u64)
    by (bit_vector)
    requires
        b < 64,
    ensures
        !has_bit(0u64, b),
{
}

proof fn lemma_bit_of_and(m: u64, a: u64, b: u64)
    by (bit_vector)
    requires
        b < 64,
    ensures
        has_bit(m & a, b) == (has_bit(m, b) && has_bit(a, b)),
        has_bit(a & !m, b) == (has_bit(a, b) && !has_bit(m, b)),
{
}

proof fn lemma_and_all(m: u64, a: u64)
    by (bit_vector)
    ensures
        (m & a == a) == (a & !m == 0u64),
{
}

/// A value with no bit set is zero.
proof fn lemma_no_bit_is_zero(x: u64)
    requires
        forall|b: u64| b < 64 ==> !#[trigger] has_bit(x, b),
    ensures
        x == 0,
{
    assert(!has_bit(x, 0u64));
    assert(!has_bit(x, 1u64));
    assert(!has_bit(x, 2u64));
    assert(!has_bit(x, 3u64));
    assert(!has_bit(x, 4u64));
    assert(!has_bit(x, 5u64));
    assert(!has_bit(x, 6u64));
    assert(!has_bit(x, 7u64));
    assert(!has_bit(x, 8u64));
    assert(!has_bit(x, 9u64));
    assert(!has_bit(x, 10u64));
    assert(!has_bit(x, 11u64));
    assert(!has_bit(x, 12u64));
    assert(!has_bit(x, 13u64));
    assert(!has_bit(x, 14u64));
    assert(!has_bit(x, 15u64));
    assert(!has_bit(x, 16u64));
    assert(!has_bit(x, 17u64));
    assert(!has_bit(x, 18u64));
    assert(!has_bit(x, 19u64));
    assert(!has_bit(x, 20u64));
    assert(!has_bit(x, 21u64));
    assert(!has_bit(x, 22u64));
    assert(!has_bit(x, 23u64));
    assert(!has_bit(x, 24u64));
    assert(!has_bit(x, 25u64));
    assert(!has_bit(x, 26u64));
    assert(!has_bit(x, 27u64));
    assert(!has_bit(x, 28u64));
    assert(!has_bit(x, 29u64));
    assert(!has_bit(x, 30u64));
    assert(!has_bit(x, 31u64));
    assert(!has_bit(x, 32u64));
    assert(!has_bit(x, 33u64));
    assert(!has_bit(x, 34u64));
    assert(!has_bit(x, 35u64));
    assert(!has_bit(x, 36u64));
    assert(!has_bit(x, 37u64));
    assert(!has_bit(x, 38u64));
    assert(!has_bit(x, 39u64));
    assert(!has_bit(x, 40u64));
    assert(!has_bit(x, 41u64));
    assert(!has_bit(x, 42u64));
    assert(!has_bit(x, 43u64));
    assert(!has_bit(x, 44u64));
    assert(!has_bit(x, 45u64));
    assert(!has_bit(x, 46u64));
    assert(!has_bit(x, 47u64));
    assert(!has_bit(x, 48u64));
    assert(!has_bit(x, 49u64));
    assert(!has_bit(x, 50u64));
    assert(!has_bit(x, 51u64));
    assert(!has_bit(x, 52u64));
    assert(!has_bit(x, 53u64));
    assert(!has_bit(x, 54u64));
    assert(!has_bit(x, 55u64));
    assert(!has_bit(x, 56u64));
    assert(!has_bit(x, 57u64));
    assert(!has_bit(x, 58u64));
    assert(!has_bit(x, 59u64));
    assert(!has_bit(x, 60u64));
    assert(!has_bit(x, 61u64));
    assert(!has_bit(x, 62u64));
    assert(!has_bit(x, 63u64));
    assert(x == 0) by (bit_vector)
        requires
            !has_bit(x, 0u64),
            !has_bit(x, 1u64),
            !has_bit(x, 2u64),
            !has_bit(x, 3u64),
            !has_bit(x, 4u64),
            !has_bit(x, 5u64),
            !has_bit(x, 6u64),
            !has_bit(x, 7u64),
            !has_bit(x, 8u64),
            !has_bit(x, 9u64),
            !has_bit(x, 10u64),
            !has_bit(x, 11u64),
            !has_bit(x, 12u64),
            !has_bit(x, 13u64),
            !has_bit(x, 14u64),
            !has_bit(x, 15u64),
            !has_bit(x, 16u64),
            !has_bit(x, 17u64),
            !has_bit(x, 18u64),
            !has_bit(x, 19u64),
            !has_bit(x, 20u64),
            !has_bit(x, 21u64),
            !has_bit(x, 22u64),
            !has_bit(x, 23u64),
            !has_bit(x, 24u64),
            !has_bit(x, 25u64),
            !has_bit(x, 26u64),
            !has_bit(x, 27u64),
            !has_bit(x, 28u64),
            !has_bit(x, 29u64),
            !has_bit(x, 30u64),
            !has_bit(x, 31u64),
            !has_bit(x, 32u64),
            !has_bit(x, 33u64),
            !has_bit(x, 34u64),
            !has_bit(x, 35u64),
            !has_bit(x, 36u64),
            !has_bit(x, 37u64),
            !has_bit(x, 38u64),
            !has_bit(x, 39u64),
            !has_bit(x, 40u64),
            !has_bit(x, 41u64),
            !has_bit(x, 42u64),
            !has_bit(x, 43u64),
            !has_bit(x, 44u64),
            !has_bit(x, 45u64),
            !has_bit(x, 46u64),
            !has_bit(x, 47u64),
            !has_bit(x, 48u64),
            !has_bit(x, 49u64),
            !has_bit(x, 50u64),
            !has_bit(x, 51u64),
            !has_bit(x, 52u64),
            !has_bit(x, 53u64),
            !has_bit(x, 54u64),
            !has_bit(x, 55u64),
            !has_bit(x, 56u64),
            !has_bit(x, 57u64),
            !has_bit(x, 58u64),
            !has_bit(x, 59u64),
            !has_bit(x, 60u64),
            !has_bit(x, 61u64),
            !has_bit(x, 62u64),
            !has_bit(x, 63u64),
    ;
}

/// The mask of `ids` has bit `b` set exactly when `b` is one of them.
proof fn lemma_mask_bits(ids: Seq<u32>, b: u64)
    requires
        b < 64,
    ensures
        has_bit(mask_of(ids), b) <==> exists|j: int| 0 <= j < ids.len() && #[trigger] ids[j] as u64 == b,
    decreases ids.len(),
{
    if ids.len() == 0 {
        lemma_bit_of_zero(b);
    } else {
        let init = ids.drop_last();
        lemma_mask_bits(init, b);
        if ids.last() < 64 {
            lemma_bit_of_or_shift(mask_of(init), ids.last(), b);
        }
        if exists|j: int| 0 <= j < ids.len() && #[trigger] ids[j] as u64 == b {
            let j = choose|j: int| 0 <= j < ids.len() && #[trigger] ids[j] as u64 == b;
            if j < ids.len() - 1 {
                assert(init[j] as u64 == b);
            }
        }
        if exists|j: int| 0 <= j < init.len() && #[trigger] init[j] as u64 == b {
            let j = choose|j: int| 0 <= j < init.len() && #[trigger] init[j] as u64 == b;
            assert(ids[j] as u64 == b);
        }
        assert(ids[ids.len() - 1] == ids.last());
    }
}

/// The ids a selection takes are exactly the logical ids of the cores it
/// selects.
proof fn lemma_selected_has(cores: Seq<CoreGroup>, sel: CoreSelection, x: u32)
    ensures
        selected_ids(cores, sel).contains(x) <==> exists|i: int, j: int|
            0 <= i < cores.len() && selects(sel, cores[i]) && 0 <= j < cores[i].logical_ids@.len()
                && #[trigger] cores[i].logical_ids@[j] == x,
    decreases cores.len(),
{
    if cores.len() > 0 {
        let init = cores.drop_last();
        let c = cores.last();
        lemma_selected_has(init, sel, x);
        let a = selected_ids(init, sel);
        let t = if selects(sel, c) {
            c.logical_ids@
        } else {
            Seq::<u32>::empty()
        };
        assert(selected_ids(cores, sel) == a + t);
        if (a + t).contains(x) {
            let k = choose|k: int| 0 <= k < (a + t).len() && (a + t)[k] == x;
            if k < a.len() {
                assert(a[k] == x);
                assert(a.contains(x));
                let (i, j) = choose|i: int, j: int|
                    0 <= i < init.len() && selects(sel, init[i]) && 0 <= j < init[i].logical_ids@.len()
                        && #[trigger] init[i].logical_ids@[j] == x;
                assert(cores[i] == init[i]);
                assert(cores[i].logical_ids@[j] == x);
            } else {
                assert(t[k - a.len()] == x);
                assert(cores[cores.len() - 1] == c);
                assert(cores[cores.len() - 1].logical_ids@[k - a.len()] == x);
            }
        }
        if exists|i: int, j: int|
            0 <= i < cores.len() && selects(sel, cores[i]) && 0 <= j < cores[i].logical_ids@.len()
                && #[trigger] cores[i].logical_ids@[j] == x {
            let (i, j) = choose|i: int, j: int|
                0 <= i < cores.len() && selects(sel, cores[i]) && 0 <= j < cores[i].logical_ids@.len()
                    && #[trigger] cores[i].logical_ids@[j] == x;
            if i < cores.len() - 1 {
                assert(init[i] == cores[i]);
                assert(init[i].logical_ids@[j] == x);
                assert(a.contains(x));
                let k = choose|k: int| 0 <= k < a.len() && a[k] == x;
                assert((a + t)[k] == x);
            } else {
                assert(cores[i] == c);
                assert((a + t)[a.len() + j] == x);
            }
        }
    }
}

/// Bit `b` of the mask of a selection is set exactly when a selected core
/// has logical processor `b`.
proof fn lemma_selection_bit(cores: Seq<CoreGroup>, sel: CoreSelection, b: u32)
    requires
        b < 64,
    ensures
        has_bit(mask_of(selected_ids(cores, sel)), b as u64) <==> exists|i: int, j: int|
            0 <= i < cores.len() && selects(sel, cores[i]) && 0 <= j < cores[i].logical_ids@.len()
                && #[trigger] cores[i].logical_ids@[j] == b,
{
    let ids = selected_ids(cores, sel);
    lemma_mask_bits(ids, b as u64);
    lemma_selected_has(cores, sel, b);
    if exists|j: int| 0 <= j < ids.len() && #[trigger] ids[j] as u64 == b as u64 {
        let j = choose|j: int| 0 <= j < ids.len() && #[trigger] ids[j] as u64 == b as u64;
        assert(ids[j] == b);
        assert(ids.contains(b));
    }
    if ids.contains(b) {
        let j = choose|j: int| 0 <= j < ids.len() && ids[j] == b;
        assert(ids[j] as u64 == b as u64);
    }
}

/// The checks on a mask `m` against the topology's mask `a`: it selects
/// none of the topology's processors exactly when no bit of `m` is one of
/// them, and all of them exactly when every one of them has its bit in `m`.
proof fn lemma_mask_checks(m: u64, a: u64, cores: Seq<CoreGroup>)
    requires
        forall|b: u32| b < 64 ==> (has_bit(a, b as u64) <==> #[trigger] in_topology(cores, b)),
    ensures
        (m & a == 0) <==> !exists|b: u32| b < 64 && has_bit(m, b as u64) && #[trigger] in_topology(cores, b),
        (m & a == a) <==> !exists|b: u32| b < 64 && #[trigger] in_topology(cores, b) && !has_bit(m, b as u64),
{
    if exists|b: u32| b < 64 && has_bit(m, b as u64) && #[trigger] in_topology(cores, b) {
        let b = choose|b: u32| b < 64 && has_bit(m, b as u64) && #[trigger] in_topology(cores, b);
        lemma_bit_of_and(m, a, b as u64);
        lemma_bit_of_zero(b as u64);
        assert(m & a != 0);
    } else {
        assert forall|b: u64| b < 64 implies !#[trigger] has_bit(m & a, b) by {
            lemma_bit_of_and(m, a, b);
            let b32 = b as u32;
            assert(b32 as u64 == b);
            assert(in_topology(cores, b32) <==> has_bit(a, b));
        }
        lemma_no_bit_is_zero(m & a);
    }
    lemma_and_all(m, a);
    if exists|b: u32| b < 64 && #[trigger] in_topology(cores, b) && !has_bit(m, b as u64) {
        let b = choose|b: u32| b < 64 && #[trigger] in_topology(cores, b) && !has_bit(m, b as u64);
        lemma_bit_of_and(m, a, b as u64);
        lemma_bit_of_zero(b as u64);
        assert(a & !m != 0);
    } else {
        assert forall|b: u64| b < 64 implies !#[trigger] has_bit(a & !m, b) by {
            lemma_bit_of_and(m, a, b);
            let b32 = b as u32;
            assert(b32 as u64 == b);
            assert(in_topology(cores, b32) <==> has_bit(a, b));
        }
        lemma_no_bit_is_zero(a & !m);
    }
}

/// The topology's mask has a bit set exactly for its logical processors
/// below 64.
proof fn lemma_topology_bits(cores: Seq<CoreGroup>)
    ensures
        forall|b: u32|
            b < 64 ==> (has_bit(mask_of(selected_ids(cores, CoreSelection::All)), b as u64) <==> #[trigger] in_topology(
                cores,
                b,
            )),
{
    assert forall|b: u32| b < 64 implies (has_bit(mask_of(selected_ids(cores, CoreSelection::All)), b as u64)
        <==> #[trigger] in_topology(cores, b)) by {
        lemma_selection_bit(cores, CoreSelection::All, b);
    }
}

/// What `Ccd0` selects: the mask has a bit set exactly for the logical
/// processors (below 64) of the cores on CCD 0. It is accepted exactly when
/// some such processor exists, some processor of the topology is not on
/// CCD 0, and the machine has one processor group.
pub proof fn lemma_ccd0_mask_is_ccd0_cores(mask_hex: Option<Seq<char>>, topo: CpuTopology)
    ensures
        (affinity_mask(AffinityMode::Ccd0, mask_hex, topo) is Ok) <==> ((exists|b: u32|
            b < 64 && #[trigger] on_ccd0(topo.cores@, b)) && (exists|b: u32|
            b < 64 && #[trigger] in_topology(topo.cores@, b) && !on_ccd0(topo.cores@, b))
            && topo.group_count <= 1),
        affinity_mask(AffinityMode::Ccd0, mask_hex, topo) matches Ok(m) ==> forall|b: u32|
            b < 64 ==> (has_bit(m, b as u64) <==> #[trigger] on_ccd0(topo.cores@, b)),
{
    let cores = topo.cores@;
    let m = mask_of(selected_ids(cores, CoreSelection::CcdZero));
    let a = mask_of(selected_ids(cores, CoreSelection::All));
    lemma_topology_bits(cores);
    assert forall|b: u32| b < 64 implies (has_bit(m, b as u64) <==> #[trigger] on_ccd0(cores, b)) by {
        lemma_selection_bit(cores, CoreSelection::CcdZero, b);
    }
    lemma_mask_checks(m, a, cores);
    if exists|b: u32| b < 64 && #[trigger] on_ccd0(cores, b) {
        let b = choose|b: u32| b < 64 && #[trigger] on_ccd0(cores, b);
        let (i, j) = choose|i: int, j: int|
            0 <= i < cores.len() && cores[i].ccd == Some(0u32) && 0 <= j < cores[i].logical_ids@.len()
                && #[trigger] cores[i].logical_ids@[j] == b;
        assert(in_topology(cores, b));
        assert(has_bit(m, b as u64));
    } else {
        assert forall|b: u32| b < 64 && #[trigger] in_topology(cores, b) implies !has_bit(m, b as u64) by {
            assert(!on_ccd0(cores, b));
        }
    }
    if exists|b: u32| b < 64 && #[trigger] in_topology(cores, b) && !on_ccd0(cores, b) {
        let b = choose|b: u32| b < 64 && #[trigger] in_topology(cores, b) && !on_ccd0(cores, b);
        assert(!has_bit(m, b as u64));
    } else {
        assert forall|b: u32| b < 64 && #[trigger] in_topology(cores, b) implies has_bit(m, b as u64) by {
            assert(on_ccd0(cores, b));
        }
    }
}

/// Some core of `cores` that is not an efficiency core has logical
/// processor `id`.
pub open spec fn on_performance_core(cores: Seq<CoreGroup>, id: u32) -> bool {
    exists|i: int, j: int|
        0 <= i < cores.len() && !cores[i].is_efficiency && 0 <= j < cores[i].logical_ids@.len()
            && #[trigger] cores[i].logical_ids@[j] == id
}

/// Some core of `cores` with physical id 0 has logical processor `id`.
pub open spec fn on_physical_core0(cores: Seq<CoreGroup>, id: u32) -> bool {
    exists|i: int, j: int|
        0 <= i < cores.len() && cores[i].physical_id == 0 && 0 <= j < cores[i].logical_ids@.len()
            && #[trigger] cores[i].logical_ids@[j] == id
}

/// What `PcoreOnly` selects: the mask has a bit set exactly for the logical
/// processors (below 64) of the cores that are not efficiency cores. It is
/// accepted exactly when some such processor exists, some processor is on
/// an efficiency core, and the machine has one processor group.
pub proof fn lemma_pcore_mask_is_performance_cores(mask_hex: Option<Seq<char>>, topo: CpuTopology)
    ensures
        (affinity_mask(AffinityMode::PcoreOnly, mask_hex, topo) is Ok) <==> ((exists|b: u32|
            b < 64 && #[trigger] on_performance_core(topo.cores@, b)) && (exists|b: u32|
            b < 64 && #[trigger] in_topology(topo.cores@, b) && !on_performance_core(topo.cores@, b))
            && topo.group_count <= 1),
        affinity_mask(AffinityMode::PcoreOnly, mask_hex, topo) matches Ok(m) ==> forall|b: u32|
            b < 64 ==> (has_bit(m, b as u64) <==> #[trigger] on_performance_core(topo.cores@, b)),
{
    let cores = topo.cores@;
    let m = mask_of(selected_ids(cores, CoreSelection::Performance));
    let a = mask_of(selected_ids(cores, CoreSelection::All));
    lemma_topology_bits(cores);
    assert forall|b: u32| b < 64 implies (has_bit(m, b as u64) <==> #[trigger] on_performance_core(cores, b)) by {
        lemma_selection_bit(cores, CoreSelection::Performance, b);
    }
    lemma_mask_checks(m, a, cores);
    if exists|b: u32| b < 64 && #[trigger] on_performance_core(cores, b) {
        let b = choose|b: u32| b < 64 && #[trigger] on_performance_core(cores, b);
        let (i, j) = choose|i: int, j: int|
            0 <= i < cores.len() && !cores[i].is_efficiency && 0 <= j < cores[i].logical_ids@.len()
                && #[trigger] cores[i].logical_ids@[j] == b;
        assert(in_topology(cores, b));
        assert(has_bit(m, b as u64));
    } else {
        assert forall|b: u32| b < 64 && #[trigger] in_topology(cores, b) implies !has_bit(m, b as u64) by {
            assert(!on_performance_core(cores, b));
        }
    }
    if exists|b: u32| b < 64 && #[trigger] in_topology(cores, b) && !on_performance_core(cores, b) {
        let b = choose|b: u32| b < 64 && #[trigger] in_topology(cores, b) && !on_performance_core(cores, b);
        assert(!has_bit(m, b as u64));
    } else {
        assert forall|b: u32| b < 64 && #[trigger] in_topology(cores, b) implies has_bit(m, b as u64) by {
            assert(on_performance_core(cores, b));
        }
    }
}

/// What `ExcludeCore0` selects: the mask has a bit set exactly for the
/// logical processors (below 64) of the topology that are not on physical
/// core 0. It is accepted exactly when some such processor exists, some
/// processor is on physical core 0, and the machine has one processor
/// group.
pub proof fn lemma_exclude_core0_mask(mask_hex: Option<Seq<char>>, topo: CpuTopology)
    ensures
        (affinity_mask(AffinityMode::ExcludeCore0, mask_hex, topo) is Ok) <==> ((exists|b: u32|
            b < 64 && #[trigger] in_topology(topo.cores@, b) && !on_physical_core0(topo.cores@, b)) && (exists|
            b: u32,
        | b < 64 && #[trigger] on_physical_core0(topo.cores@, b)) && topo.group_count <= 1),
        affinity_mask(AffinityMode::ExcludeCore0, mask_hex, topo) matches Ok(m) ==> forall|b: u32|
            b < 64 ==> (has_bit(m, b as u64) <==> #[trigger] in_topology(topo.cores@, b) && !on_physical_core0(
                topo.cores@,
                b,
            )),
{
    let cores = topo.cores@;
    let z = mask_of(selected_ids(cores, CoreSelection::PhysicalZero));
    let a = mask_of(selected_ids(cores, CoreSelection::All));
    let m = a & !z;
    lemma_topology_bits(cores);
    assert forall|b: u32| b < 64 implies (has_bit(m, b as u64) <==> #[trigger] in_topology(cores, b)
        && !on_physical_core0(cores, b)) by {
        lemma_selection_bit(cores, CoreSelection::PhysicalZero, b);
        lemma_bit_of_and(z, a, b as u64);
    }
    lemma_mask_checks(m, a, cores);
    if exists|b: u32| b < 64 && #[trigger] on_physical_core0(cores, b) {
        let b = choose|b: u32| b < 64 && #[trigger] on_physical_core0(cores, b);
        let (i, j) = choose|i: int, j: int|
            0 <= i < cores.len() && cores[i].physical_id == 0 && 0 <= j < cores[i].logical_ids@.len()
                && #[trigger] cores[i].logical_ids@[j] == b;
        assert(in_topology(cores, b));
        assert(!has_bit(m, b as u64));
    }
}

} // verus!
