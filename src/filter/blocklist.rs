//! Blocklist for ad/tracking domains.
use vstd::prelude::*;
use vstd::utf8::*;
use vstd::string::StringSliceAdditionalSpecFns;
use rustc_hash::FxHashSet;
use crate::text::{
    DOT, lower_bytes, str_bytes, lowercase_ascii, decode_text, lemma_lower_keeps_utf8, utf8_str,
    trim_str, trim_white_space, lemma_first_char,
};

verus! {

broadcast use vstd::utf8::group_utf8_lib;

/// The byte of a line break.
pub const NEWLINE: u8 = 0x0A;

/// A small built-in list of ad and tracking domains, used by `Blocklist::new`.
pub const DEFAULT_LIST: &'static str = "# Ad and tracking domains blocked by default.\n\
! Lines starting with '#' or '!' are comments; blank lines are ignored.\n\
doubleclick.com\n\
doubleclick.net\n\
googleadservices.com\n\
googlesyndication.com\n\
google-analytics.com\n\
adservice.google.com\n\
ads.yahoo.com\n\
adnxs.com\n\
scorecardresearch.com\n\
taboola.com\n\
outbrain.com\n\
criteo.com\n\
moatads.com\n\
amazon-adsystem.com\n";

/// The domains, as UTF-8 bytes, that a string set holds.
pub uninterp spec fn domain_set(s: FxHashSet<String>) -> Set<Seq<u8>>;

/// Relies on `FxHashSet::default`: a new set holds nothing.
#[verifier::external_body]
fn set_new() -> (r: FxHashSet<String>)
    ensures
        domain_set(r) == Set::<Seq<u8>>::empty(),
{
    FxHashSet::default()
}

/// Relies on `HashSet::insert`: afterwards the set holds `v` besides what it held.
#[verifier::external_body]
fn set_insert(s: &mut FxHashSet<String>, v: String)
    ensures
        domain_set(*final(s)) == domain_set(*old(s)).insert(str_bytes(v@)),
{
    s.insert(v);
}

/// Relies on `HashSet::contains`: whether the set holds a string equal to `v`.
#[verifier::external_body]
fn set_contains(s: &FxHashSet<String>, v: &str) -> (r: bool)
    ensures
        r == domain_set(*s).contains(str_bytes(v@)),
{
    s.contains(v)
}

/// Relies on `HashSet::len`: the number of strings the set holds.
#[verifier::external_body]
fn set_len(s: &FxHashSet<String>) -> (r: usize)
    ensures
        r == domain_set(*s).len(),
{
    s.len()
}

/// The domain a list line contributes: the line without leading and trailing white space,
/// in ASCII lowercase, as UTF-8 bytes; nothing when the line is not valid UTF-8, is blank, or
/// is a comment (`#` or `!` first).
pub open spec fn list_entry(line: Seq<u8>) -> Option<Seq<u8>> {
    if !valid_utf8(line) {
        None
    } else {
        let t = trim_white_space(decode_utf8(line));
        if t.len() == 0 || t[0] == '#' || t[0] == '!' {
            None
        } else {
            Some(lower_bytes(encode_utf8(t)))
        }
    }
}

/// `text[s..e]` is a whole line of `text`: line breaks (or the ends) on both sides, none inside.
pub open spec fn is_line(text: Seq<u8>, s: int, e: int) -> bool {
    &&& 0 <= s <= e <= text.len()
    &&& s == 0 || text[s - 1] == NEWLINE
    &&& e == text.len() || text[e] == NEWLINE
    &&& forall|i: int| s <= i < e ==> text[i] != NEWLINE
}

/// The domains contributed by the lines of `text` that end before position `k`.
pub open spec fn entries_before(text: Seq<u8>, k: int) -> Set<Seq<u8>> {
    Set::new(
        |d: Seq<u8>|
            exists|s: int, e: int|
                is_line(text, s, e) && e < k && #[trigger] list_entry(text.subrange(s, e)) == Some(
                    d,
                ),
    )
}

/// The domains of a newline-delimited list.
pub open spec fn list_entries(text: Seq<u8>) -> Set<Seq<u8>> {
    entries_before(text, text.len() + 1int)
}

/// `d` or a suffix of it that follows a `.` is in `set`: the domain or one of its parents.
pub open spec fn suffix_blocked(set: Set<Seq<u8>>, d: Seq<u8>) -> bool {
    exists|k: int|
        0 <= k <= d.len() && (k == 0 || d[k - 1] == DOT) && #[trigger] set.contains(
            d.subrange(k, d.len() as int),
        )
}

/// A set of blocked domains for efficient lookup.
pub struct Blocklist {
    domains: FxHashSet<String>,
}

impl View for Blocklist {
    type V = Set<Seq<u8>>;

    /// The blocked domains, as UTF-8 bytes.
    closed spec fn view(&self) -> Set<Seq<u8>> {
        domain_set(self.domains)
    }
}

impl Blocklist {
    /// The table's invariant: finitely many domains, none of them empty.
    pub closed spec fn wf(&self) -> bool {
        self@.finite() && !self@.contains(Seq::<u8>::empty())
    }

    /// A well-formed blocklist holds finitely many domains, none of them empty.
    pub proof fn lemma_wf(&self)
        requires
            self.wf(),
        ensures
            self@.finite(),
            !self@.contains(Seq::<u8>::empty()),
    {
    }

    /// A blocklist with no domains.
    pub fn empty() -> (r: Self)
        ensures
            r.wf(),
            r@ == Set::<Seq<u8>>::empty(),
    {
        Blocklist { domains: set_new() }
    }

    /// Adds the domain of one line, if it has one.
    fn insert_line(&mut self, line: &[u8])
        requires
            old(self).wf(),
        ensures
            final(self).wf(),
            final(self)@ == match list_entry(line@) {
                Some(d) => old(self)@.insert(d),
                None => old(self)@,
            },
    {
        let text = match utf8_str(line) {
            Some(text) => text,
            None => return,
        };
        let t = trim_str(text);
        if t.is_empty() {
            return;
        }
        let tb = t.as_bytes();
        proof {
            assert(decode_utf8(encode_utf8(t@)) == t@);
            lemma_first_char(t@);
            lemma_lower_keeps_utf8(tb@);
        }
        if tb[0] == 0x23 || tb[0] == 0x21 {
            return;
        }
        let lowered = lowercase_ascii(tb);
        match decode_text(lowered.as_slice()) {
            Some(domain) => {
                set_insert(&mut self.domains, domain);
            },
            None => {},
        }
    }

    /// Adds the domains of every line of `text`.
    fn insert_list(&mut self, text: &str)
        requires
            old(self).wf(),
        ensures
            final(self).wf(),
            final(self)@ == old(self)@.union(list_entries(text.spec_bytes())),
    {
        let b = text.as_bytes();
        let ghost t = b@;
        let mut start: usize = 0;
        let mut i: usize = 0;
        while i < b.len()
            invariant
                t == b@,
                start <= i <= t.len(),
                start == 0 || t[start - 1] == NEWLINE,
                forall|k: int| start <= k < i ==> t[k] != NEWLINE,
                self.wf(),
                self@ == old(self)@.union(entries_before(t, start as int)),
            decreases t.len() - i,
        {
            if b[i] == NEWLINE {
                self.insert_line(&b[start..i]);
                proof {
                    lemma_entries_step(t, start as int, i as int);
                    assert(self@ =~= old(self)@.union(entries_before(t, i + 1)));
                }
                start = i + 1;
            }
            i += 1;
        }
        self.insert_line(&b[start..i]);
        proof {
            lemma_entries_step(t, start as int, t.len() as int);
            assert(self@ =~= old(self)@.union(entries_before(t, t.len() + 1int)));
        }
    }

    /// A blocklist holding the domains of one newline-delimited list.
    pub fn from_text(text: &str) -> (r: Self)
        ensures
            r.wf(),
            r@ == list_entries(text.spec_bytes()),
    {
        let mut r = Self::empty();
        r.insert_list(text);
        assert(r@ =~= list_entries(text.spec_bytes()));
        r
    }

    /// A blocklist holding the domains of all the given lists.
    pub fn from_lists(lists: &[&str]) -> (r: Self)
        ensures
            r.wf(),
            forall|d: Seq<u8>|
                r@.contains(d) <==> exists|i: int|
                    0 <= i < lists@.len() && #[trigger] list_entries(lists@[i].spec_bytes()).contains(
                        d,
                    ),
    {
        let mut r = Self::empty();
        let mut i: usize = 0;
        while i < lists.len()
            invariant
                i <= lists@.len(),
                r.wf(),
                forall|d: Seq<u8>|
                    r@.contains(d) <==> exists|j: int|
                        0 <= j < i && #[trigger] list_entries(lists@[j].spec_bytes()).contains(d),
            decreases lists@.len() - i,
        {
            let ghost old_r = r@;
            r.insert_list(lists[i]);
            proof {
                assert forall|d: Seq<u8>|
                    (exists|j: int|
                        0 <= j < i + 1 && #[trigger] list_entries(lists@[j].spec_bytes()).contains(
                            d,
                        )) implies #[trigger] r@.contains(d) by {
                    let j = choose|j: int|
                        0 <= j < i + 1 && #[trigger] list_entries(lists@[j].spec_bytes()).contains(
                            d,
                        );
                    if j < i {
                        assert(old_r.contains(d));
                    }
                }
            }
            i += 1;
        }
        r
    }

    /// A blocklist holding the built-in list of ad and tracking domains.
    pub fn new() -> (r: Self)
        ensures
            r.wf(),
            r@ == list_entries(DEFAULT_LIST.spec_bytes()),
    {
        Self::from_text(DEFAULT_LIST)
    }

    /// Whether `domain` or one of its parent domains is blocked; the domain is expected in
    /// lowercase, as parsing leaves it.
    pub fn is_blocked(&self, domain: &str) -> (r: bool)
        ensures
            r == suffix_blocked(self@, str_bytes(domain@)),
    {
        let ghost d = domain.spec_bytes();
        let mut current: &str = domain;
        let ghost mut k: int = 0;
        loop
            invariant
                d == str_bytes(domain@),
                0 <= k <= d.len(),
                current.spec_bytes() == d.subrange(k, d.len() as int),
                k == 0 || d[k - 1] == DOT,
                forall|k2: int|
                    0 <= k2 < k && (k2 == 0 || d[k2 - 1] == DOT) ==> !#[trigger] self@.contains(
                        d.subrange(k2, d.len() as int),
                    ),
            decreases d.len() - k,
        {
            if set_contains(&self.domains, current) {
                assert(self@.contains(d.subrange(k, d.len() as int)));
                return true;
            }
            let b = current.as_bytes();
            let mut j: usize = 0;
            while j < b.len() && b[j] != DOT
                invariant
                    j <= b@.len(),
                    b@ == d.subrange(k, d.len() as int),
                    forall|x: int| 0 <= x < j ==> b@[x] != DOT,
                decreases b@.len() - j,
            {
                j += 1;
            }
            if j == b.len() {
                assert forall|k2: int|
                    0 <= k2 <= d.len() && (k2 == 0 || d[k2 - 1] == DOT) implies !#[trigger] self@.contains(
                        d.subrange(k2, d.len() as int),
                    ) by {
                    if k2 > k {
                        assert(b@[k2 - 1 - k] == d[k2 - 1]);
                    }
                }
                return false;
            }
            proof {
                let cb = current.spec_bytes();
                assert(!is_continuation_byte(cb[j as int]));
                assert(is_char_boundary(cb, j as int));
            }
            let (_, tail) = current.split_at(j);
            proof {
                let tb = tail.spec_bytes();
                assert(tb[0] == DOT);
                assert(valid_utf8(tb));
                assert(is_char_boundary(tb, 1)) by {
                    reveal_with_fuel(is_char_boundary, 2);
                    assert(is_leading_byte_width_1(tb[0]));
                    assert(length_of_first_scalar(tb) == 1);
                    assert(pop_first_scalar(tb) =~= tb.subrange(1, tb.len() as int));
                }
            }
            let (_, rest) = tail.split_at(1);
            proof {
                let k0 = k;
                k = k + j + 1;
                assert(rest.spec_bytes() =~= d.subrange(k, d.len() as int));
                assert forall|k2: int|
                    0 <= k2 < k && (k2 == 0 || d[k2 - 1] == DOT) implies !#[trigger] self@.contains(
                        d.subrange(k2, d.len() as int),
                    ) by {
                    if k0 < k2 < k {
                        assert(b@[k2 - 1 - k0] == d[k2 - 1]);
                    }
                }
            }
            current = rest;
        }
    }

    /// The number of domains in the blocklist.
    pub fn len(&self) -> (r: usize)
        ensures
            r == self@.len(),
    {
        set_len(&self.domains)
    }

    /// An empty domain is never blocked.
    pub proof fn lemma_empty_not_blocked(&self)
        requires
            self.wf(),
        ensures
            !suffix_blocked(self@, Seq::<u8>::empty()),
    {
        if suffix_blocked(self@, Seq::<u8>::empty()) {
            let k = choose|k: int|
                0 <= k <= 0 && (k == 0 || Seq::<u8>::empty()[k - 1] == DOT) && #[trigger] self@.contains(
                    Seq::<u8>::empty().subrange(k, 0),
                );
            assert(Seq::<u8>::empty().subrange(k, 0) =~= Seq::<u8>::empty());
        }
    }
}

impl Default for Blocklist {
    /// The built-in list, as `Blocklist::new`.
    fn default() -> (r: Self)
        ensures
            r.wf(),
            r@ == list_entries(DEFAULT_LIST.spec_bytes()),
    {
        Self::new()
    }
}

/// Lines ending before `i + 1` are those ending before `start`, and the line `text[start..i]`.
proof fn lemma_entries_step(text: Seq<u8>, start: int, i: int)
    requires
        0 <= start <= i <= text.len(),
        start == 0 || text[start - 1] == NEWLINE,
        forall|k: int| start <= k < i ==> text[k] != NEWLINE,
        i == text.len() || text[i] == NEWLINE,
    ensures
        entries_before(text, i + 1) == match list_entry(text.subrange(start, i)) {
            Some(d) => entries_before(text, start).insert(d),
            None => entries_before(text, start),
        },
{
    assert(is_line(text, start, i));
    assert forall|d: Seq<u8>| #[trigger] entries_before(text, i + 1).contains(d) implies (
    entries_before(text, start).contains(d) || list_entry(text.subrange(start, i)) == Some(d)) by {
        let (s, e) = choose|s: int, e: int|
            is_line(text, s, e) && e < i + 1 && #[trigger] list_entry(text.subrange(s, e)) == Some(d);
        if e >= start {
            if e < i {
                assert(text[e] != NEWLINE);
            }
            if s < start {
                assert(text[start - 1] == NEWLINE);
            } else if s > start {
                assert(text[s - 1] != NEWLINE);
            }
        }
    }
    assert forall|d: Seq<u8>| #[trigger] entries_before(text, start).contains(d) implies entries_before(
        text,
        i + 1,
    ).contains(d) by {
        let (s, e) = choose|s: int, e: int|
            is_line(text, s, e) && e < start && #[trigger] list_entry(text.subrange(s, e)) == Some(d);
        assert(is_line(text, s, e) && e < i + 1);
    }
    match list_entry(text.subrange(start, i)) {
        Some(d) => {
            assert(entries_before(text, i + 1).contains(d));
            assert(entries_before(text, i + 1) =~= entries_before(text, start).insert(d));
        },
        None => {
            assert(entries_before(text, i + 1) =~= entries_before(text, start));
        },
    }
}

/// Blocking is closed under adding a parent label: if `x` is blocked, so is `a.x`.
pub proof fn lemma_blocked_parent_extension(set: Set<Seq<u8>>, a: Seq<u8>, x: Seq<u8>)
    requires
        suffix_blocked(set, x),
    ensures
        suffix_blocked(set, a + seq![DOT] + x),
{
    let d = a + seq![DOT] + x;
    let k = choose|k: int|
        0 <= k <= x.len() && (k == 0 || x[k - 1] == DOT) && #[trigger] set.contains(
            x.subrange(k, x.len() as int),
        );
    let k2 = a.len() + 1 + k;
    assert(d.subrange(k2, d.len() as int) =~= x.subrange(k, x.len() as int));
    assert(d[k2 - 1] == DOT);
    assert(set.contains(d.subrange(k2, d.len() as int)));
}

} // verus!
