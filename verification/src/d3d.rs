//! Which monitors there are, which one is recorded, and which adapter owns it.

use vstd::prelude::*;

verus! {

/// One output of one adapter, as the system describes it.
pub struct OutputDesc {
    /// The number of the adapter that owns it.
    pub adapter: u32,
    /// Whether it is part of the desktop.
    pub attached: bool,
    /// Its device name, padded with NULs.
    pub name: String,
    pub left: i32,
    pub top: i32,
    pub right: i32,
    pub bottom: i32,
    /// The handle of its monitor.
    pub monitor: isize,
}

/// A monitor that can be recorded.
pub struct MonitorInfo {
    /// Its number, from one, in the order in which outputs are found.
    pub index: u32,
    pub name: String,
    pub width: u32,
    pub height: u32,
    pub primary: bool,
    pub hmonitor: isize,
}

/// `s` without the NULs at its end.
pub open spec fn unpadded(s: Seq<char>) -> Seq<char>
    decreases s.len(),
{
    if s.len() > 0 && s.last() == '\0' {
        unpadded(s.drop_last())
    } else {
        s
    }
}

/// `s` without the NULs at its end.
pub fn trim_nuls(s: &str) -> (t: String)
    ensures
        t@ == unpadded(s@),
{
    let v = crate::text::chars_of(s);
    let mut n: usize = v.len();
    assert(s@.take(n as int) =~= s@);
    while n > 0 && v[n - 1] == '\0'
        invariant
            n <= v@.len(),
            v@ == s@,
            unpadded(s@.take(n as int)) == unpadded(s@),
        decreases n,
    {
        assert(s@.take(n as int).drop_last() =~= s@.take(n - 1));
        n -= 1;
    }
    let head = vstd::slice::slice_subrange(v.as_slice(), 0, n);
    assert(head@ =~= s@.take(n as int));
    crate::text::string_of(head)
}

/// The distance between two coordinates.
pub open spec fn span(from: int, to: int) -> int {
    if to >= from {
        to - from
    } else {
        from - to
    }
}

impl OutputDesc {
    /// Its width and its height fit 32 bits.
    pub open spec fn fits(self) -> bool {
        &&& i32::MIN <= self.right - self.left <= i32::MAX
        &&& i32::MIN <= self.bottom - self.top <= i32::MAX
    }

    /// Whether its width and its height fit 32 bits.
    pub fn has_size(&self) -> (b: bool)
        ensures
            b == self.fits(),
    {
        let width: i64 = self.right as i64 - self.left as i64;
        let height: i64 = self.bottom as i64 - self.top as i64;
        -0x8000_0000 <= width && width <= 0x7FFF_FFFF && -0x8000_0000 <= height && height
            <= 0x7FFF_FFFF
    }

    /// The width and the height of its part of the desktop.
    pub open spec fn size(self) -> (int, int) {
        (span(self.left as int, self.right as int), span(self.top as int, self.bottom as int))
    }
}

/// The outputs that are part of the desktop.
pub open spec fn attached(outputs: Seq<OutputDesc>) -> Seq<OutputDesc> {
    outputs.filter(|o: OutputDesc| o.attached)
}

/// The first outputs hold no more attached ones than all of them.
proof fn lemma_attached_take(outputs: Seq<OutputDesc>, n: int)
    requires
        0 <= n <= outputs.len(),
    ensures
        attached(outputs.take(n)).len() <= attached(outputs).len(),
    decreases outputs.len(),
{
    if n == outputs.len() {
        assert(outputs.take(n) =~= outputs);
    } else {
        reveal(Seq::filter);
        assert(outputs.drop_last().take(n) =~= outputs.take(n));
        lemma_attached_take(outputs.drop_last(), n);
    }
}

impl MonitorInfo {
    /// This is the `k`-th monitor, and `o` is its output.
    pub open spec fn describes(self, o: OutputDesc, k: int, primary: isize) -> bool {
        &&& self.index == k + 1
        &&& self.name@ == unpadded(o.name@)
        &&& (self.width as int, self.height as int) == o.size()
        &&& self.primary == (o.monitor == primary)
        &&& self.hmonitor == o.monitor
    }
}

/// The distance between two coordinates.
fn distance(from: i32, to: i32) -> (d: u32)
    requires
        i32::MIN <= to - from <= i32::MAX,
    ensures
        d == span(from as int, to as int),
{
    if to >= from {
        (to - from) as u32
    } else {
        let d: i64 = from as i64 - to as i64;
        d as u32
    }
}

/// The width and the height of an output's part of the desktop.
pub fn output_size_of(o: &OutputDesc) -> (r: (u32, u32))
    requires
        o.fits(),
    ensures
        (r.0 as int, r.1 as int) == o.size(),
{
    (distance(o.left, o.right), distance(o.top, o.bottom))
}

/// The monitors behind the outputs of all adapters, numbered from one in the
/// order in which they are found. Outputs that are not part of the desktop are
/// left out.
pub fn list_monitors(outputs: &Vec<OutputDesc>, primary: isize) -> (r: Vec<MonitorInfo>)
    requires
        attached(outputs@).len() <= u32::MAX,
        forall|i: int|
            0 <= i < outputs@.len() && (#[trigger] outputs@[i]).attached ==> outputs@[i].fits(),
    ensures
        r@.len() == attached(outputs@).len(),
        forall|k: int|
            0 <= k < r@.len() ==> (#[trigger] r@[k]).describes(attached(outputs@)[k], k, primary),
{
    let mut r: Vec<MonitorInfo> = Vec::new();
    let mut i: usize = 0;
    proof {
        reveal(Seq::filter);
        assert(attached(outputs@.take(0)).len() == 0);
    }
    while i < outputs.len()
        invariant
            i <= outputs@.len(),
            attached(outputs@).len() <= u32::MAX,
            forall|j: int|
                0 <= j < outputs@.len() && (#[trigger] outputs@[j]).attached
                    ==> outputs@[j].fits(),
            r@.len() == attached(outputs@.take(i as int)).len(),
            forall|k: int|
                0 <= k < r@.len() ==> (#[trigger] r@[k]).describes(
                    attached(outputs@.take(i as int))[k],
                    k,
                    primary,
                ),
        decreases outputs@.len() - i,
    {
        let o = &outputs[i];
        proof {
            reveal(Seq::filter);
            assert(outputs@.take(i + 1).drop_last() =~= outputs@.take(i as int));
            assert(outputs@.take(i + 1).last() == outputs@[i as int]);
            lemma_attached_take(outputs@, i + 1);
        }
        if o.attached {
            let (width, height) = output_size_of(o);
            r.push(
                MonitorInfo {
                    index: r.len() as u32 + 1,
                    name: trim_nuls(o.name.as_str()),
                    width,
                    height,
                    primary: o.monitor == primary,
                    hmonitor: o.monitor,
                },
            );
        }
        i += 1;
    }
    assert(outputs@.take(i as int) =~= outputs@);
    r
}

/// The first monitor with the number `n`.
pub open spec fn numbered(monitors: Seq<MonitorInfo>, n: u32) -> Option<MonitorInfo>
    decreases monitors.len(),
{
    if monitors.len() == 0 {
        None
    } else if monitors[0].index == n {
        Some(monitors[0])
    } else {
        numbered(monitors.skip(1), n)
    }
}

/// The handle of the monitor that `selector` stands for: zero is the primary one,
/// and so is a monitor that is gone.
pub fn resolve_monitor(selector: u32, monitors: &Vec<MonitorInfo>, primary: isize) -> (h: isize)
    ensures
        h == if selector == 0 {
            primary
        } else {
            match numbered(monitors@, selector) {
                Some(m) => m.hmonitor,
                None => primary,
            }
        },
{
    if selector > 0 {
        let mut i: usize = 0;
        assert(monitors@.skip(0) =~= monitors@);
        while i < monitors.len()
            invariant
                selector > 0,
                i <= monitors@.len(),
                numbered(monitors@.skip(i as int), selector) == numbered(monitors@, selector),
            decreases monitors@.len() - i,
        {
            assert(monitors@.skip(i as int).skip(1) =~= monitors@.skip(i + 1));
            if monitors[i].index == selector {
                return monitors[i].hmonitor;
            }
            i += 1;
        }
    }
    primary
}

/// The position of the first output of the monitor `hmonitor`.
pub open spec fn output_of(outputs: Seq<OutputDesc>, hmonitor: isize) -> Option<int>
    decreases outputs.len(),
{
    if outputs.len() == 0 {
        None
    } else if outputs[0].monitor == hmonitor {
        Some(0)
    } else {
        match output_of(outputs.skip(1), hmonitor) {
            Some(k) => Some(k + 1),
            None => None,
        }
    }
}

/// A position that was found is one of the outputs.
pub proof fn lemma_output_of(outputs: Seq<OutputDesc>, hmonitor: isize)
    ensures
        output_of(outputs, hmonitor) matches Some(k) ==> {
            &&& 0 <= k < outputs.len()
            &&& outputs[k].monitor == hmonitor
            &&& forall|j: int| 0 <= j < k ==> (#[trigger] outputs[j]).monitor != hmonitor
        },
        output_of(outputs, hmonitor) is None ==> forall|j: int|
            0 <= j < outputs.len() ==> (#[trigger] outputs[j]).monitor != hmonitor,
    decreases outputs.len(),
{
    if outputs.len() > 0 && outputs[0].monitor != hmonitor {
        let rest = outputs.skip(1);
        lemma_output_of(rest, hmonitor);
        assert forall|j: int| 0 < j < outputs.len() implies #[trigger] outputs[j] == rest[j - 1] by {
        }
    }
}

/// The position of the first output of the monitor `hmonitor`.
pub fn find_output(outputs: &Vec<OutputDesc>, hmonitor: isize) -> (r: Option<usize>)
    ensures
        match r {
            Some(k) => output_of(outputs@, hmonitor) == Some(k as int) && k < outputs@.len(),
            None => output_of(outputs@, hmonitor) is None,
        },
{
    let mut i: usize = 0;
    proof {
        lemma_output_of(outputs@, hmonitor);
    }
    while i < outputs.len()
        invariant
            i <= outputs@.len(),
            forall|j: int| 0 <= j < i ==> (#[trigger] outputs@[j]).monitor != hmonitor,
            output_of(outputs@, hmonitor) matches Some(k) ==> 0 <= k < outputs@.len()
                && outputs@[k].monitor == hmonitor && forall|j: int|
                0 <= j < k ==> (#[trigger] outputs@[j]).monitor != hmonitor,
            output_of(outputs@, hmonitor) is None ==> forall|j: int|
                0 <= j < outputs@.len() ==> (#[trigger] outputs@[j]).monitor != hmonitor,
        decreases outputs@.len() - i,
    {
        if outputs[i].monitor == hmonitor {
            return Some(i);
        }
        i += 1;
    }
    None
}

/// The adapter that owns the monitor `hmonitor`, if one does.
pub fn adapter_for_monitor(outputs: &Vec<OutputDesc>, hmonitor: isize) -> (r: Option<u32>)
    ensures
        r == match output_of(outputs@, hmonitor) {
            Some(k) => Some(outputs@[k].adapter),
            None => None,
        },
{
    match find_output(outputs, hmonitor) {
        Some(k) => Some(outputs[k].adapter),
        None => None,
    }
}

/// How a device is asked for.
#[derive(Debug, Clone, Copy, PartialEq, Eq, Structural)]
pub enum DriverType {
    /// That of the adapter that is given.
    Unknown,
    /// The default hardware.
    Hardware,
}

/// How a device is asked for: an adapter that is known decides by itself.
pub fn driver_type(adapter_known: bool) -> (d: DriverType)
    ensures
        d == if adapter_known {
            DriverType::Unknown
        } else {
            DriverType::Hardware
        },
{
    if adapter_known {
        DriverType::Unknown
    } else {
        DriverType::Hardware
    }
}

// ---------------------------------------------------------------------------
// Laws
// ---------------------------------------------------------------------------

/// Law: in a list of monitors that counts from one, the number `n` stands for the
/// `n`-th monitor, and a number past the end for none.
pub proof fn law_numbers_find_monitors(monitors: Seq<MonitorInfo>, n: u32)
    requires
        forall|k: int| 0 <= k < monitors.len() ==> (#[trigger] monitors[k]).index == k + 1,
    ensures
        1 <= n <= monitors.len() ==> numbered(monitors, n) == Some(monitors[n - 1]),
        n > monitors.len() ==> numbered(monitors, n) is None,
{
    if n > 0 {
        lemma_numbered_from(monitors, n, 0);
        assert(monitors.skip(0) =~= monitors);
    }
}

proof fn lemma_numbered_from(monitors: Seq<MonitorInfo>, n: u32, i: int)
    requires
        0 <= i <= monitors.len(),
        i < n,
        forall|k: int| 0 <= k < monitors.len() ==> (#[trigger] monitors[k]).index == k + 1,
    ensures
        n <= monitors.len() ==> numbered(monitors.skip(i), n) == Some(monitors[n - 1]),
        n > monitors.len() ==> numbered(monitors.skip(i), n) is None,
    decreases monitors.len() - i,
{
    if i < monitors.len() {
        let rest = monitors.skip(i);
        assert(rest[0] == monitors[i]);
        if monitors[i].index != n {
            lemma_numbered_from(monitors, n, i + 1);
            assert(rest.skip(1) =~= monitors.skip(i + 1));
        }
    }
}

/// Law: trimming takes NULs off the end of a name, all of them, and nothing else.
pub proof fn law_names_lose_their_padding(s: Seq<char>)
    ensures
        unpadded(s).len() <= s.len(),
        unpadded(s) == s.take(unpadded(s).len() as int),
        unpadded(s).len() > 0 ==> unpadded(s).last() != '\0',
        forall|i: int| unpadded(s).len() <= i < s.len() ==> #[trigger] s[i] == '\0',
    decreases s.len(),
{
    if s.len() > 0 && s.last() == '\0' {
        law_names_lose_their_padding(s.drop_last());
        assert(s.drop_last().take(unpadded(s).len() as int) =~= s.take(unpadded(s).len() as int));
        assert forall|i: int| unpadded(s).len() <= i < s.len() implies #[trigger] s[i]
            == '\0' by {
            if i < s.len() - 1 {
                assert(s.drop_last()[i] == s[i]);
            }
        }
    } else {
        assert(s.take(s.len() as int) =~= s);
    }
}

/// Law: the size of an output is the distance between its edges, whichever of them
/// has the larger coordinate.
pub proof fn law_sizes_are_distances(o: OutputDesc)
    ensures
        o.size().0 >= 0 && o.size().1 >= 0,
        o.size().0 == o.right - o.left || o.size().0 == o.left - o.right,
        o.size().1 == o.bottom - o.top || o.size().1 == o.top - o.bottom,
        o.fits() <==> -0x8000_0000 <= o.right - o.left <= 0x7FFF_FFFF && -0x8000_0000 <= o.bottom
            - o.top <= 0x7FFF_FFFF,
{
}

/// Law: a monitor that describes the `k`-th attached output has the number `k + 1`,
/// the output's handle and size, and its name without the NULs behind it; it is
/// primary if its handle is the primary one.
pub proof fn law_monitors_describe_outputs(m: MonitorInfo, o: OutputDesc, k: int, primary: isize)
    requires
        m.describes(o, k, primary),
    ensures
        m.index == k + 1,
        m.hmonitor == o.monitor,
        m.primary <==> o.monitor == primary,
        m.width == o.right - o.left || m.width == o.left - o.right,
        m.height == o.bottom - o.top || m.height == o.top - o.bottom,
        m.name@.len() <= o.name@.len(),
        m.name@ == o.name@.take(m.name@.len() as int),
        m.name@.len() > 0 ==> m.name@.last() != '\0',
        forall|i: int| m.name@.len() <= i < o.name@.len() ==> #[trigger] o.name@[i] == '\0',
{
    law_names_lose_their_padding(o.name@);
}

/// Law: the attached outputs are the outputs that are part of the desktop, each of
/// them, in the order in which they were found.
pub proof fn law_attached_outputs(outputs: Seq<OutputDesc>) -> (src: Seq<int>)
    ensures
        src.len() == attached(outputs).len(),
        forall|a: int|
            #![trigger src[a]]
            0 <= a < src.len() ==> 0 <= src[a] < outputs.len() && outputs[src[a]].attached
                && attached(outputs)[a] == outputs[src[a]],
        forall|a: int, b: int| 0 <= a < b < src.len() ==> src[a] < src[b],
        forall|i: int|
            0 <= i < outputs.len() && (#[trigger] outputs[i]).attached ==> src.contains(i),
    decreases outputs.len(),
{
    reveal(Seq::filter);
    if outputs.len() == 0 {
        Seq::empty()
    } else {
        let rest = outputs.drop_last();
        let before = law_attached_outputs(rest);
        let last = outputs.len() - 1;
        if outputs.last().attached {
            let src = before.push(last);
            assert forall|i: int|
                0 <= i < outputs.len() && (#[trigger] outputs[i]).attached implies src.contains(
                i,
            ) by {
                if i < last {
                    assert(rest[i] == outputs[i]);
                    let a = choose|a: int| 0 <= a < before.len() && before[a] == i;
                    assert(src[a] == i);
                } else {
                    assert(src[before.len() as int] == i);
                }
            }
            src
        } else {
            assert forall|i: int|
                0 <= i < outputs.len() && (#[trigger] outputs[i]).attached implies before.contains(
                i,
            ) by {
                assert(rest[i] == outputs[i]);
            }
            before
        }
    }
}

/// Law: a number stands for the first monitor that has it, and for none if none has.
pub proof fn law_numbers_are_looked_up(monitors: Seq<MonitorInfo>, n: u32)
    ensures
        match numbered(monitors, n) {
            Some(m) => m.index == n && exists|k: int|
                0 <= k < monitors.len() && m == #[trigger] monitors[k] && forall|j: int|
                    0 <= j < k ==> (#[trigger] monitors[j]).index != n,
            None => forall|k: int| 0 <= k < monitors.len() ==> (#[trigger] monitors[k]).index != n,
        },
    decreases monitors.len(),
{
    if monitors.len() > 0 && monitors[0].index != n {
        let rest = monitors.skip(1);
        law_numbers_are_looked_up(rest, n);
        if numbered(rest, n) is Some {
            let m = numbered(rest, n)->0;
            let k = choose|k: int|
                0 <= k < rest.len() && m == #[trigger] rest[k] && forall|j: int|
                    0 <= j < k ==> (#[trigger] rest[j]).index != n;
            assert(monitors[k + 1] == m);
            assert forall|j: int| 0 <= j < k + 1 implies (#[trigger] monitors[j]).index != n by {
                if j > 0 {
                    assert(monitors[j] == rest[j - 1]);
                }
            }
        } else {
            assert forall|k: int| 0 <= k < monitors.len() implies (#[trigger] monitors[k]).index
                != n by {
                if k > 0 {
                    assert(monitors[k] == rest[k - 1]);
                }
            }
        }
    } else if monitors.len() > 0 {
        assert(monitors[0] == monitors[0]);
    }
}

} // verus!
