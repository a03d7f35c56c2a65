use crate::identity::Identity;
use crate::state_get::string_chars;
use vstd::prelude::*;

verus! {

/// ASCII lowering of a single character: an ASCII capital letter drops to
/// its small form, anything else stays.
pub open spec fn lower_char(c: char) -> char {
    if 65 <= c as u32 && c as u32 <= 90 {
        ((c as u32 + 32) as u8) as char
    } else {
        c
    }
}

/// ASCII lowering, executable.
pub fn lower_char_exec(c: char) -> (r: char)
    ensures
        r == lower_char(c),
{
    let code = c as u32;
    if 65 <= code && code <= 90 {
        ((code + 32) as u8) as char
    } else {
        c
    }
}

/// The roster key of an identity: its display name's first character,
/// lowered.
pub open spec fn letter_of(x: Identity) -> char
    recommends
        x.username@.len() > 0,
{
    lower_char(x.username@[0])
}

/// Strict lexicographic order on character sequences, by code point, a
/// shorter sequence below its extensions.
pub open spec fn chars_lt(a: Seq<char>, b: Seq<char>) -> bool
    decreases a.len(),
{
    if b.len() == 0 {
        false
    } else if a.len() == 0 {
        true
    } else if (a[0] as u32) < (b[0] as u32) {
        true
    } else if (a[0] as u32) > (b[0] as u32) {
        false
    } else {
        chars_lt(a.drop_first(), b.drop_first())
    }
}

/// Strict display order on identities: by display name, then by key.
pub open spec fn ident_lt(a: Identity, b: Identity) -> bool {
    chars_lt(a.username@, b.username@) || (a.username@ == b.username@ && a.did.0 < b.did.0)
}

/// A prefix on which the code points agree decides the order at its end:
/// the comparison turns on what stands next, or on which side ran out.
proof fn lemma_chars_lt_at(a: Seq<char>, b: Seq<char>, i: int)
    requires
        0 <= i <= a.len(),
        i <= b.len(),
        forall|k: int| 0 <= k < i ==> (a[k] as u32) == ((#[trigger] b[k]) as u32),
    ensures
        i == a.len() && i == b.len() ==> !chars_lt(a, b),
        i == a.len() && i < b.len() ==> chars_lt(a, b),
        i == b.len() && i < a.len() ==> !chars_lt(a, b),
        i < a.len() && i < b.len() && (a[i] as u32) != (b[i] as u32)
            ==> chars_lt(a, b) == ((a[i] as u32) < (b[i] as u32)),
    decreases i,
{
    if i == 0 {
    } else {
        assert((a[0] as u32) == (b[0] as u32));
        let a1 = a.drop_first();
        let b1 = b.drop_first();
        assert forall|k: int| 0 <= k < i - 1
            implies (a1[k] as u32) == ((#[trigger] b1[k]) as u32) by {
            assert(a1[k] == a[k + 1]);
            assert(b1[k] == b[k + 1]);
        }
        lemma_chars_lt_at(a1, b1, i - 1);
        if i < a.len() && i < b.len() {
            assert(a1[i - 1] == a[i]);
            assert(b1[i - 1] == b[i]);
        }
        assert(chars_lt(a, b) == chars_lt(a1, b1));
    }
}

/// Strict lexicographic comparison of two strings, character by
/// character.
pub fn string_lt(a: &String, b: &String) -> (r: bool)
    ensures
        r == chars_lt(a@, b@),
{
    let ac = string_chars(a);
    let bc = string_chars(b);
    let mut i: usize = 0;
    while i < ac.len() && i < bc.len()
        invariant
            ac@ == a@,
            bc@ == b@,
            i <= ac.len(),
            i <= bc.len(),
            forall|k: int| 0 <= k < i ==> (a@[k] as u32) == ((#[trigger] b@[k]) as u32),
        decreases ac.len() - i,
    {
        let x = ac[i] as u32;
        let y = bc[i] as u32;
        if x != y {
            proof {
                lemma_chars_lt_at(a@, b@, i as int);
            }
            return x < y;
        }
        i += 1;
    }
    proof {
        lemma_chars_lt_at(a@, b@, i as int);
    }
    ac.len() < bc.len()
}

/// Strict display-order comparison of two identities.
pub fn ident_lt_exec(a: &Identity, b: &Identity) -> (r: bool)
    ensures
        r == ident_lt(*a, *b),
{
    if string_lt(&a.username, &b.username) {
        return true;
    }
    if crate::state::string_eq(&a.username, &b.username) {
        return a.did.0 < b.did.0;
    }
    false
}

/// The first position in the roster whose key is not below the letter
/// (the roster's length when every key is below it).
pub open spec fn roster_pos(groups: Seq<(char, Seq<Identity>)>, letter: char) -> int
    decreases groups.len(),
{
    if groups.len() == 0 {
        0
    } else if (groups[0].0 as u32) >= (letter as u32) {
        0
    } else {
        1 + roster_pos(groups.drop_first(), letter)
    }
}

/// The first position in a display group whose member stands strictly
/// above the identity (the group's length when none does).
pub open spec fn bucket_pos(group: Seq<Identity>, x: Identity) -> int
    decreases group.len(),
{
    if group.len() == 0 {
        0
    } else if ident_lt(x, group[0]) {
        0
    } else {
        1 + bucket_pos(group.drop_first(), x)
    }
}

/// One identity filed into its display group, at the position that keeps
/// the group sorted by (display name, key).
pub open spec fn bucket_insert(group: Seq<Identity>, x: Identity) -> Seq<Identity> {
    group.insert(bucket_pos(group, x), x)
}

/// One identity filed into the roster: placed in display order inside its
/// letter's group, or opening a fresh group at the position that keeps the
/// keys ascending.
pub open spec fn roster_insert(groups: Seq<(char, Seq<Identity>)>, x: Identity)
    -> Seq<(char, Seq<Identity>)> {
    let letter = letter_of(x);
    let j = roster_pos(groups, letter);
    if j < groups.len() && groups[j].0 == letter {
        groups.update(j, (letter, bucket_insert(groups[j].1, x)))
    } else {
        groups.insert(j, (letter, seq![x]))
    }
}

/// A whole list of identities filed into an empty roster, in list order.
pub open spec fn roster_of(idents: Seq<Identity>) -> Seq<(char, Seq<Identity>)>
    decreases idents.len(),
{
    if idents.len() == 0 {
        Seq::<(char, Seq<Identity>)>::empty()
    } else {
        roster_insert(roster_of(idents.drop_last()), idents.last())
    }
}

/// A found position below which every key is smaller is the first
/// not-below position.
proof fn lemma_roster_pos(groups: Seq<(char, Seq<Identity>)>, letter: char, j: int)
    requires
        0 <= j <= groups.len(),
        j < groups.len() ==> (groups[j].0 as u32) >= (letter as u32),
        forall|k: int| 0 <= k < j ==> ((#[trigger] groups[k].0) as u32) < (letter as u32),
    ensures
        roster_pos(groups, letter) == j,
    decreases j,
{
    if groups.len() == 0 {
    } else if j == 0 {
    } else {
        assert((groups[0].0 as u32) < (letter as u32));
        assert forall|k: int| 0 <= k < j - 1
            implies (((#[trigger] groups.drop_first()[k]).0) as u32) < (letter as u32) by {
            assert(groups.drop_first()[k] == groups[k + 1]);
        }
        if j < groups.len() {
            assert(groups.drop_first()[j - 1] == groups[j]);
        }
        lemma_roster_pos(groups.drop_first(), letter, j - 1);
    }
}

/// A found position below which every member is not above the identity is
/// the first strictly-above position.
proof fn lemma_bucket_pos(group: Seq<Identity>, x: Identity, j: int)
    requires
        0 <= j <= group.len(),
        j < group.len() ==> ident_lt(x, group[j]),
        forall|k: int| 0 <= k < j ==> !ident_lt(x, #[trigger] group[k]),
    ensures
        bucket_pos(group, x) == j,
    decreases j,
{
    if group.len() == 0 {
    } else if j == 0 {
    } else {
        assert(!ident_lt(x, group[0]));
        assert forall|k: int| 0 <= k < j - 1
            implies !ident_lt(x, #[trigger] group.drop_first()[k]) by {
            assert(group.drop_first()[k] == group[k + 1]);
        }
        if j < group.len() {
            assert(group.drop_first()[j - 1] == group[j]);
        }
        lemma_bucket_pos(group.drop_first(), x, j - 1);
    }
}

/// An exact copy of a list of identities.
pub fn copy_idents(v: &Vec<Identity>) -> (r: Vec<Identity>)
    ensures
        r@ == v@,
{
    let mut r: Vec<Identity> = Vec::new();
    let mut i: usize = 0;
    while i < v.len()
        invariant
            i <= v.len(),
            r@ == v@.take(i as int),
        decreases v.len() - i,
    {
        let x = v[i].clone();
        r.push(x);
        proof {
            assert(v@.take(i as int + 1) =~= v@.take(i as int).push(v@[i as int]));
        }
        i += 1;
    }
    proof {
        assert(v@.take(v@.len() as int) =~= v@);
    }
    r
}

/// Files friends into a roster of display groups, keyed by the lowered
/// first character of the display name, keys ascending, each group sorted
/// by (display name, then key) so the display order is deterministic.
#[verifier::loop_isolation(false)]
pub fn get_friends_by_first_letter(friends: Vec<Identity>)
    -> (r: Vec<(char, Vec<Identity>)>)
    requires
        forall|i: int| 0 <= i < friends@.len() ==> (#[trigger] friends@[i]).username@.len() > 0,
    ensures
        r.deep_view() == roster_of(friends@),
{
    let mut r: Vec<(char, Vec<Identity>)> = Vec::new();
    let mut i: usize = 0;
    let n = friends.len();
    while i < n
        invariant
            n == friends.len(),
            i <= n,
            forall|k: int| 0 <= k < friends@.len()
                ==> (#[trigger] friends@[k]).username@.len() > 0,
            r.deep_view() == roster_of(friends@.take(i as int)),
        decreases n - i,
    {
        proof {
            assert(friends@.take(i as int + 1).drop_last() =~= friends@.take(i as int));
            assert(friends@.take(i as int + 1).last() == friends@[i as int]);
        }
        let x = friends[i].clone();
        let chars = string_chars(&x.username);
        let letter = lower_char_exec(chars[0]);
        proof {
            assert(letter == letter_of(friends@[i as int]));
        }
        let ghost g0 = r.deep_view();
        let mut j: usize = 0;
        let rn = r.len();
        while j < rn && (r[j].0 as u32) < (letter as u32)
            invariant
                rn == r.len(),
                j <= rn,
                r.deep_view() == g0,
                forall|k: int| 0 <= k < j ==> ((#[trigger] g0[k].0) as u32) < (letter as u32),
            decreases rn - j,
        {
            proof {
                assert(g0[j as int].0 == r@[j as int].0);
            }
            j += 1;
        }
        proof {
            if j < rn {
                assert(g0[j as int].0 == r@[j as int].0);
            }
            lemma_roster_pos(g0, letter, j as int);
        }
        if j < r.len() && r[j].0 == letter {
            let mut bucket = copy_idents(&r[j].1);
            let ghost b0 = bucket@;
            proof {
                assert(b0 =~= g0[j as int].1);
            }
            let mut m: usize = 0;
            let bn = bucket.len();
            while m < bn && !ident_lt_exec(&x, &bucket[m])
                invariant
                    bn == bucket.len(),
                    m <= bn,
                    bucket@ == b0,
                    forall|k: int| 0 <= k < m ==> !ident_lt(friends@[i as int],
                        #[trigger] b0[k]),
                decreases bn - m,
            {
                m += 1;
            }
            proof {
                lemma_bucket_pos(b0, friends@[i as int], m as int);
            }
            bucket.insert(m, x);
            proof {
                assert(bucket@ == b0.insert(m as int, friends@[i as int]));
            }
            r.set(j, (letter, bucket));
            proof {
                assert(r.deep_view() =~~= g0.update(
                    j as int,
                    (letter, bucket_insert(g0[j as int].1, friends@[i as int])),
                ));
            }
        } else {
            let mut group: Vec<Identity> = Vec::new();
            group.push(x);
            r.insert(j, (letter, group));
            proof {
                assert(group@ =~= seq![friends@[i as int]]);
                assert(r.deep_view() =~~= g0.insert(j as int, (
                    letter,
                    seq![friends@[i as int]],
                )));
            }
        }
        proof {
            assert(r.deep_view() == roster_of(friends@.take(i as int + 1)));
        }
        i += 1;
    }
    proof {
        assert(friends@.take(friends@.len() as int) =~= friends@);
    }
    r
}

} // verus!
