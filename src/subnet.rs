//! Subnet identifiers: a root chain number and the path of child subnet
//! addresses below it, written `/r<root>/<child>/<child>...`.
use vstd::prelude::*;
use vstd::string::*;

use crate::address::parse_address;
use crate::errors::ParamError;

verus! {

/// The digit character of `d` in `0..10`.
pub open spec fn digit_char(d: int) -> char {
    (d + 48) as char
}

pub open spec fn is_digit(c: char) -> bool {
    '0' <= c && c <= '9'
}

/// The canonical decimal text of `n`: no sign, no leading zero.
pub open spec fn dec_text(n: nat) -> Seq<char>
    decreases n,
{
    if n < 10 {
        seq![digit_char(n as int)]
    } else {
        dec_text(n / 10).push(digit_char((n % 10) as int))
    }
}

/// The value of a string of decimal digits.
pub open spec fn digits_value(s: Seq<char>) -> int
    decreases s.len(),
{
    if s.len() == 0 {
        0
    } else {
        digits_value(s.drop_last()) * 10 + (s.last() as int - 48)
    }
}

/// The pieces of `s` between slashes, as `str::split('/')` yields them.
pub open spec fn split_slash(s: Seq<char>) -> Seq<Seq<char>>
    decreases s.len(),
{
    if s.len() == 0 {
        seq![Seq::<char>::empty()]
    } else {
        let p = split_slash(s.drop_last());
        if s.last() == '/' {
            p.push(Seq::<char>::empty())
        } else {
            p.update(p.len() - 1, p.last().push(s.last()))
        }
    }
}

/// Pieces joined with slashes between them.
pub open spec fn join_slash(p: Seq<Seq<char>>) -> Seq<char>
    decreases p.len(),
{
    if p.len() == 0 {
        Seq::<char>::empty()
    } else if p.len() == 1 {
        p[0]
    } else {
        join_slash(p.drop_last()) + seq!['/'] + p.last()
    }
}

/// The segment that names root chain `root`.
pub open spec fn root_segment(root: u64) -> Seq<char> {
    seq!['r'] + dec_text(root as nat)
}

pub open spec fn is_root_segment(seg: Seq<char>) -> bool {
    exists|n: u64| seg == #[trigger] root_segment(n)
}

/// The slash-separated pieces of a subnet's text: an empty one before the
/// leading slash, the root segment, then one per child.
pub open spec fn subnet_parts(root: u64, children: Seq<Seq<char>>) -> Seq<Seq<char>> {
    seq![Seq::<char>::empty(), root_segment(root)] + children
}

/// The canonical text of a subnet identifier.
pub open spec fn subnet_text(root: u64, children: Seq<Seq<char>>) -> Seq<char> {
    join_slash(subnet_parts(root, children))
}

/// Text that has the shape of a subnet identifier: a leading slash, a root
/// segment, and no empty child segment.
pub open spec fn subnet_syntax_ok(s: Seq<char>) -> bool {
    let p = split_slash(s);
    &&& p.len() >= 2
    &&& p[0].len() == 0
    &&& is_root_segment(p[1])
    &&& forall|k: int| 2 <= k < p.len() ==> (#[trigger] p[k]).len() > 0
}

proof fn lemma_digit_char(d: int)
    requires
        0 <= d < 10,
    ensures
        digit_char(d) as int == d + 48,
        is_digit(digit_char(d)),
{
}

proof fn lemma_dec_text(n: nat)
    ensures
        dec_text(n).len() >= 1,
        forall|i: int| 0 <= i < dec_text(n).len() ==> is_digit(#[trigger] dec_text(n)[i]),
        digits_value(dec_text(n)) == n,
    decreases n,
{
    if n >= 10 {
        lemma_dec_text(n / 10);
        lemma_digit_char((n % 10) as int);
        let t = dec_text(n / 10);
        assert(dec_text(n).drop_last() =~= t);
        assert(digits_value(dec_text(n)) == digits_value(t) * 10 + (n % 10) as int);
    } else {
        lemma_digit_char(n as int);
        assert(dec_text(n).drop_last() =~= Seq::<char>::empty());
        assert(digits_value(Seq::<char>::empty()) == 0);
    }
}

proof fn lemma_split_nonempty(s: Seq<char>)
    ensures
        split_slash(s).len() >= 1,
    decreases s.len(),
{
    if s.len() > 0 {
        lemma_split_nonempty(s.drop_last());
    }
}

proof fn lemma_join_split(s: Seq<char>)
    ensures
        join_slash(split_slash(s)) == s,
    decreases s.len(),
{
    if s.len() > 0 {
        let t = s.drop_last();
        let c = s.last();
        lemma_join_split(t);
        lemma_split_nonempty(t);
        let p = split_slash(t);
        assert(s =~= t.push(c));
        if c == '/' {
            let q = p.push(Seq::<char>::empty());
            assert(q.drop_last() =~= p);
            assert(join_slash(q) == join_slash(p) + seq!['/'] + Seq::<char>::empty());
            assert(join_slash(q) =~= s);
        } else {
            let q = p.update(p.len() - 1, p.last().push(c));
            if p.len() == 1 {
                assert(join_slash(q) == q[0]);
                assert(join_slash(p) == p[0]);
                assert(join_slash(q) =~= s);
            } else {
                assert(q.drop_last() =~= p.drop_last());
                assert(join_slash(p) == join_slash(p.drop_last()) + seq!['/'] + p.last());
                assert(join_slash(q) == join_slash(p.drop_last()) + seq!['/'] + p.last().push(c));
                assert(join_slash(q) =~= s);
            }
        }
    }
}

/// The text of a parsed subnet identifier is the text it was parsed from.
pub proof fn lemma_subnet_round_trip(s: Seq<char>, root: u64, children: Seq<Seq<char>>)
    requires
        split_slash(s) == subnet_parts(root, children),
    ensures
        subnet_text(root, children) == s,
{
    lemma_join_split(s);
}

pub open spec fn slash_free(s: Seq<char>) -> bool {
    forall|i: int| 0 <= i < s.len() ==> #[trigger] s[i] != '/'
}

proof fn lemma_split_append(x: Seq<char>, b: Seq<char>)
    requires
        slash_free(b),
    ensures
        split_slash(x + b) == split_slash(x).update(
            split_slash(x).len() - 1,
            split_slash(x).last() + b,
        ),
    decreases b.len(),
{
    lemma_split_nonempty(x);
    if b.len() == 0 {
        assert(x + b =~= x);
        assert(split_slash(x).last() + b =~= split_slash(x).last());
        assert(split_slash(x).update(split_slash(x).len() - 1, split_slash(x).last())
            =~= split_slash(x));
    } else {
        let b1 = b.drop_last();
        let c = b.last();
        lemma_split_append(x, b1);
        assert((x + b).drop_last() =~= x + b1);
        assert((x + b).last() == c);
        let p = split_slash(x);
        let q = split_slash(x + b1);
        assert(q.last() == p.last() + b1);
        assert((p.last() + b1).push(c) =~= p.last() + b);
        assert(split_slash(x + b) =~= p.update(p.len() - 1, p.last() + b));
    }
}

proof fn lemma_split_join(p: Seq<Seq<char>>)
    requires
        p.len() >= 1,
        forall|i: int| 0 <= i < p.len() ==> slash_free(#[trigger] p[i]),
    ensures
        split_slash(join_slash(p)) == p,
    decreases p.len(),
{
    if p.len() == 1 {
        lemma_split_append(Seq::<char>::empty(), p[0]);
        assert(Seq::<char>::empty() + p[0] =~= p[0]);
        assert(split_slash(p[0]) =~= p);
    } else {
        let q = p.drop_last();
        lemma_split_join(q);
        let x = join_slash(q) + seq!['/'];
        assert(x.drop_last() =~= join_slash(q));
        assert(split_slash(x) == q.push(Seq::<char>::empty()));
        lemma_split_append(x, p.last());
        assert(Seq::<char>::empty() + p.last() =~= p.last());
        assert(split_slash(join_slash(p)) =~= p);
    }
}

/// The text of a subnet identifier reads back as its root and children, when
/// no child is empty or holds a slash; it then has the shape of an identifier.
pub proof fn lemma_subnet_text_reads_back(root: u64, children: Seq<Seq<char>>)
    requires
        forall|i: int|
            0 <= i < children.len() ==> slash_free(#[trigger] children[i]) && children[i].len()
                > 0,
    ensures
        split_slash(subnet_text(root, children)) == subnet_parts(root, children),
        subnet_syntax_ok(subnet_text(root, children)),
{
    let p = subnet_parts(root, children);
    lemma_dec_text(root as nat);
    assert forall|i: int| 0 <= i < p.len() implies slash_free(#[trigger] p[i]) by {
        if i == 1 {
            assert forall|j: int| 0 <= j < p[1].len() implies #[trigger] p[1][j] != '/' by {
                if j > 0 {
                    assert(p[1][j] == dec_text(root as nat)[j - 1]);
                }
            }
        } else if i >= 2 {
            assert(p[i] == children[i - 2]);
        }
    }
    lemma_split_join(p);
    assert(p[1] == root_segment(root));
    assert forall|k: int| 2 <= k < p.len() implies (#[trigger] p[k]).len() > 0 by {
        assert(p[k] == children[k - 2]);
    }
}

proof fn lemma_split_slash_free(s: Seq<char>)
    ensures
        forall|i: int| 0 <= i < split_slash(s).len() ==> slash_free(#[trigger] split_slash(s)[i]),
    decreases s.len(),
{
    if s.len() > 0 {
        lemma_split_slash_free(s.drop_last());
        lemma_split_nonempty(s.drop_last());
        let p = split_slash(s.drop_last());
        if s.last() != '/' {
            let q = split_slash(s);
            assert forall|i: int| 0 <= i < q.len() implies slash_free(#[trigger] q[i]) by {
                if i == p.len() - 1 {
                    assert forall|j: int| 0 <= j < q[i].len() implies #[trigger] q[i][j] != '/' by {
                        if j < p.last().len() {
                            assert(q[i][j] == p.last()[j]);
                        }
                    }
                }
            }
        }
    }
}

/// Relies on `String`'s `FromIterator<char>`: the characters in order.
#[verifier::external_body]
fn chars_to_string(v: &Vec<char>) -> (r: String)
    ensures
        r@ == v@,
{
    v.iter().collect()
}

fn decimal_chars(n: u64) -> (r: Vec<char>)
    ensures
        r@ == dec_text(n as nat),
    decreases n,
{
    if n < 10 {
        let c = ((n as u8) + 48u8) as char;
        vec![c]
    } else {
        let mut r = decimal_chars(n / 10);
        let c = (((n % 10) as u8) + 48u8) as char;
        r.push(c);
        r
    }
}

/// The ranges of `s` that `split_slash` yields.
fn split_ranges(s: &str) -> (r: Vec<(usize, usize)>)
    ensures
        r@.len() == split_slash(s@).len(),
        forall|k: int|
            0 <= k < r@.len() ==> (#[trigger] r@[k]).0 <= r@[k].1 <= s@.len() && split_slash(
                s@,
            )[k] == s@.subrange(r@[k].0 as int, r@[k].1 as int),
{
    let n = s.unicode_len();
    let mut r: Vec<(usize, usize)> = Vec::new();
    let mut start: usize = 0;
    let mut i: usize = 0;
    assert(s@.take(0) =~= Seq::<char>::empty());
    while i < n
        invariant
            n == s@.len(),
            start <= i <= n,
            r@.len() + 1 == split_slash(s@.take(i as int)).len(),
            forall|k: int|
                0 <= k < r@.len() ==> (#[trigger] r@[k]).0 <= r@[k].1 <= i && split_slash(
                    s@.take(i as int),
                )[k] == s@.subrange(r@[k].0 as int, r@[k].1 as int),
            split_slash(s@.take(i as int)).last() == s@.subrange(start as int, i as int),
        decreases n - i,
    {
        let c = s.get_char(i);
        let ghost p = split_slash(s@.take(i as int));
        assert(s@.take(i + 1).drop_last() =~= s@.take(i as int));
        assert(s@.take(i + 1).last() == c);
        if c == '/' {
            r.push((start, i));
            start = i + 1;
            assert(s@.subrange(start as int, (i + 1) as int) =~= Seq::<char>::empty());
        } else {
            assert(s@.subrange(start as int, (i + 1) as int) =~= s@.subrange(
                start as int,
                i as int,
            ).push(c));
        }
        i = i + 1;
    }
    r.push((start, n));
    assert(s@.take(n as int) =~= s@);
    r
}

/// Reads the root segment `s[a..b]`: `r` and the canonical decimal text of a
/// `u64`.
fn parse_root_segment(s: &str, a: usize, b: usize) -> (r: Option<u64>)
    requires
        a <= b <= s@.len(),
    ensures
        r matches Some(n) ==> s@.subrange(a as int, b as int) == root_segment(n),
        r is None ==> !is_root_segment(s@.subrange(a as int, b as int)),
{
    let ghost seg = s@.subrange(a as int, b as int);
    if b - a < 2 {
        proof {
            assert forall|n: u64| seg != #[trigger] root_segment(n) by {
                lemma_dec_text(n as nat);
                assert(root_segment(n).len() == 1 + dec_text(n as nat).len());
                assert(seg.len() < 2);
            }
        }
        return None;
    }
    if s.get_char(a) != 'r' {
        proof {
            assert forall|n: u64| seg != #[trigger] root_segment(n) by {
                assert(root_segment(n)[0] == 'r');
            }
        }
        return None;
    }
    let ghost digits = s@.subrange(a + 1, b as int);
    assert forall|n: u64| seg == #[trigger] root_segment(n) implies digits =~= dec_text(
        n as nat,
    ) by {
        assert(digits =~= seg.subrange(1, seg.len() as int));
        assert(root_segment(n).subrange(1, root_segment(n).len() as int) =~= dec_text(n as nat));
    }
    let cap: u128 = 0x1_0000_0000_0000_0000;
    let mut val: u128 = 0;
    let mut j: usize = a + 1;
    assert(s@.subrange(a + 1, a + 1) =~= Seq::<char>::empty());
    while j < b
        invariant
            seg == s@.subrange(a as int, b as int),
            cap == 0x1_0000_0000_0000_0000,
            a + 1 <= j <= b <= s@.len(),
            digits == s@.subrange(a + 1, b as int),
            forall|i: int| a + 1 <= i < j ==> is_digit(#[trigger] s@[i]),
            val == if digits_value(s@.subrange(a + 1, j as int)) < cap {
                digits_value(s@.subrange(a + 1, j as int))
            } else {
                cap as int
            },
            forall|n: u64| seg == #[trigger] root_segment(n) ==> digits =~= dec_text(n as nat),
        decreases b - j,
    {
        let c = s.get_char(j);
        if !('0' <= c && c <= '9') {
            proof {
                assert forall|n: u64| seg != #[trigger] root_segment(n) by {
                    lemma_dec_text(n as nat);
                    if seg == root_segment(n) {
                        assert(digits == dec_text(n as nat));
                        assert(digits[j - a - 1] == s@[j as int]);
                        assert(is_digit(dec_text(n as nat)[j - a - 1]));
                    }
                }
            }
            return None;
        }
        let d: u128 = (c as u32 - 48) as u128;
        let ghost prev = digits_value(s@.subrange(a + 1, j as int));
        assert(s@.subrange(a + 1, j + 1).drop_last() =~= s@.subrange(a + 1, j as int));
        assert(digits_value(s@.subrange(a + 1, j + 1)) == prev * 10 + d);
        proof {
            lemma_digits_nonneg(s@.subrange(a + 1, j as int));
            assert((if prev < cap { prev } else { cap as int }) * 10 + d >= cap <==> prev * 10 + d
                >= cap) by (nonlinear_arith)
                requires
                    prev >= 0,
                    0 <= d < 10,
                    cap == 0x1_0000_0000_0000_0000,
            ;
        }
        val = val * 10 + d;
        if val > cap {
            val = cap;
        }
        j = j + 1;
    }
    assert(s@.subrange(a + 1, b as int) == digits);
    if val > 0xffff_ffff_ffff_ffff {
        proof {
            assert forall|n: u64| seg != #[trigger] root_segment(n) by {
                lemma_dec_text(n as nat);
            }
        }
        return None;
    }
    let n = val as u64;
    let text = decimal_chars(n);
    if text.len() != b - a - 1 {
        proof {
            assert forall|m: u64| seg != #[trigger] root_segment(m) by {
                lemma_dec_text(m as nat);
            }
        }
        return None;
    }
    let mut k: usize = 0;
    while k < text.len()
        invariant
            seg == s@.subrange(a as int, b as int),
            text@ == dec_text(n as nat),
            text@.len() == b - a - 1,
            a + 1 <= b <= s@.len(),
            digits == s@.subrange(a + 1, b as int),
            digits_value(digits) == n,
            forall|i: int| 0 <= i < k ==> text@[i] == #[trigger] digits[i],
            forall|m: u64| seg == #[trigger] root_segment(m) ==> digits =~= dec_text(m as nat),
        decreases text.len() - k,
    {
        if text[k] != s.get_char(a + 1 + k) {
            proof {
                assert(digits[k as int] == s@[a + 1 + k]);
                assert forall|m: u64| seg != #[trigger] root_segment(m) by {
                    lemma_dec_text(m as nat);
                    if seg == root_segment(m) {
                        assert(digits == dec_text(m as nat));
                    }
                }
            }
            return None;
        }
        k = k + 1;
    }
    assert(digits =~= dec_text(n as nat));
    assert(seg =~= root_segment(n));
    Some(n)
}

proof fn lemma_digits_nonneg(s: Seq<char>)
    requires
        forall|i: int| 0 <= i < s.len() ==> is_digit(#[trigger] s[i]),
    ensures
        digits_value(s) >= 0,
    decreases s.len(),
{
    if s.len() > 0 {
        lemma_digits_nonneg(s.drop_last());
    }
}

/// A subnet: the number of its root chain and the texts of the child subnet
/// addresses on the path below it, outermost first.
pub struct SubnetId {
    root: u64,
    children: Vec<String>,
}

impl View for SubnetId {
    type V = (u64, Seq<Seq<char>>);

    closed spec fn view(&self) -> Self::V {
        (self.root, self.children@.map_values(|c: String| c@))
    }
}

impl SubnetId {
    /// Every child is non-empty and holds no slash.
    pub open spec fn wf(&self) -> bool {
        forall|i: int|
            0 <= i < self@.1.len() ==> slash_free(#[trigger] self@.1[i]) && self@.1[i].len() > 0
    }

    /// The number of the root chain.
    pub fn root_id(&self) -> (r: u64)
        ensures
            r == self@.0,
    {
        self.root
    }

    /// How many child subnets the path holds.
    pub fn depth(&self) -> (r: usize)
        ensures
            r == self@.1.len(),
    {
        self.children.len()
    }

    /// The canonical text, `/r<root>/<child>...`.
    pub fn to_string(&self) -> (r: String)
        ensures
            r@ == subnet_text(self@.0, self@.1),
    {
        let ghost ch = self@.1;
        let mut out: Vec<char> = Vec::new();
        out.push('/');
        out.push('r');
        let digits = decimal_chars(self.root);
        let mut i: usize = 0;
        while i < digits.len()
            invariant
                i <= digits@.len(),
                out@ =~= seq!['/', 'r'] + digits@.take(i as int),
            decreases digits@.len() - i,
        {
            out.push(digits[i]);
            i = i + 1;
            assert(digits@.take(i as int) =~= digits@.take(i - 1).push(digits@[i - 1]));
        }
        proof {
            let p0 = subnet_parts(self.root, ch.take(0));
            assert(p0 =~= seq![Seq::<char>::empty(), root_segment(self.root)]);
            assert(p0.drop_last() =~= seq![Seq::<char>::empty()]);
            assert(digits@.take(digits@.len() as int) =~= digits@);
            assert(join_slash(seq![Seq::<char>::empty()]) == Seq::<char>::empty());
            assert(join_slash(p0) == join_slash(p0.drop_last()) + seq!['/'] + p0.last());
            assert(join_slash(p0) =~= out@);
        }
        let mut k: usize = 0;
        while k < self.children.len()
            invariant
                k <= self.children@.len(),
                ch == self@.1,
                ch.len() == self.children@.len(),
                out@ == join_slash(subnet_parts(self.root, ch.take(k as int))),
            decreases self.children@.len() - k,
        {
            let child: &str = self.children[k].as_str();
            let ghost base = out@;
            out.push('/');
            let n = child.unicode_len();
            let mut j: usize = 0;
            while j < n
                invariant
                    n == child@.len(),
                    j <= n,
                    out@ =~= base + seq!['/'] + child@.take(j as int),
                decreases n - j,
            {
                out.push(child.get_char(j));
                j = j + 1;
                assert(child@.take(j as int) =~= child@.take(j - 1).push(child@[j - 1]));
            }
            proof {
                let pk = subnet_parts(self.root, ch.take(k as int));
                let pk1 = subnet_parts(self.root, ch.take(k + 1));
                assert(pk1.drop_last() =~= pk);
                assert(ch[k as int] == child@);
                assert(pk1.last() == child@);
                assert(child@.take(n as int) =~= child@);
            }
            k = k + 1;
        }
        assert(ch.take(k as int) =~= ch);
        chars_to_string(&out)
    }
}

/// Parses a subnet identifier. Text without the shape of one is refused; so is
/// a child that the address parser refuses. A root alone always parses.
pub fn parse_subnet_id(s: &str) -> (r: Result<SubnetId, ParamError>)
    ensures
        !subnet_syntax_ok(s@) ==> r == Err::<SubnetId, ParamError>(ParamError::InvalidSubnetId),
        subnet_syntax_ok(s@) && split_slash(s@).len() == 2 ==> r is Ok,
        r matches Ok(v) ==> split_slash(s@) == subnet_parts(v@.0, v@.1) && v.wf(),
        r matches Err(e) ==> e == ParamError::InvalidSubnetId,
{
    let parts = split_ranges(s);
    let ghost p = split_slash(s@);
    if parts.len() < 2 {
        return Err(ParamError::InvalidSubnetId);
    }
    if parts[0].0 != parts[0].1 {
        return Err(ParamError::InvalidSubnetId);
    }
    let root = match parse_root_segment(s, parts[1].0, parts[1].1) {
        Some(n) => n,
        None => {
            return Err(ParamError::InvalidSubnetId);
        },
    };
    let mut children: Vec<String> = Vec::new();
    let mut k: usize = 2;
    while k < parts.len()
        invariant
            p == split_slash(s@),
            parts@.len() == p.len(),
            forall|i: int|
                0 <= i < parts@.len() ==> (#[trigger] parts@[i]).0 <= parts@[i].1 <= s@.len()
                    && p[i] == s@.subrange(parts@[i].0 as int, parts@[i].1 as int),
            2 <= k <= parts@.len(),
            children@.map_values(|c: String| c@) =~= p.subrange(2, k as int),
            forall|i: int| 2 <= i < k ==> (#[trigger] p[i]).len() > 0,
        decreases parts@.len() - k,
    {
        let a = parts[k].0;
        let b = parts[k].1;
        if a == b {
            return Err(ParamError::InvalidSubnetId);
        }
        let seg = s.substring_char(a, b);
        if parse_address(seg).is_err() {
            return Err(ParamError::InvalidSubnetId);
        }
        let owned = seg.to_owned();
        let ghost before = children@.map_values(|c: String| c@);
        children.push(owned);
        assert(children@.map_values(|c: String| c@) =~= before.push(p[k as int]));
        assert(p.subrange(2, k + 1) =~= p.subrange(2, k as int).push(p[k as int]));
        k = k + 1;
    }
    let r = SubnetId { root, children };
    proof {
        assert(p[1] == root_segment(root));
        assert(p[0] =~= Seq::<char>::empty());
        assert(p =~= subnet_parts(r@.0, r@.1));
        lemma_split_slash_free(s@);
        assert forall|i: int| 0 <= i < r@.1.len() implies slash_free(#[trigger] r@.1[i]) && r@.1[i].len() > 0 by {
            assert(r@.1[i] == p[i + 2]);
        }
    }
    Ok(r)
}

} // verus!
