//! Building the effect declaration of a set of capabilities: one effect
//! variant per capability field, in the order of the field names, all over one
//! shared event type. Names are UTF-8 bytes, so byte order is name order.
use vstd::prelude::*;

verus! {

/// Lexicographic order on byte strings: `a` sorts strictly before `b`.
pub open spec fn bytes_less(a: Seq<u8>, b: Seq<u8>) -> bool
    decreases a.len(),
{
    if b.len() == 0 {
        false
    } else if a.len() == 0 {
        true
    } else if a[0] != b[0] {
        a[0] < b[0]
    } else {
        bytes_less(a.drop_first(), b.drop_first())
    }
}

proof fn lemma_bytes_less_irreflexive(a: Seq<u8>)
    ensures
        !bytes_less(a, a),
    decreases a.len(),
{
    if a.len() > 0 {
        lemma_bytes_less_irreflexive(a.drop_first());
    }
}

proof fn lemma_bytes_less_total(a: Seq<u8>, b: Seq<u8>)
    ensures
        a == b || bytes_less(a, b) || bytes_less(b, a),
    decreases a.len(),
{
    if a.len() > 0 && b.len() > 0 && a[0] == b[0] {
        lemma_bytes_less_total(a.drop_first(), b.drop_first());
        if a.drop_first() == b.drop_first() {
            assert(a =~= seq![a[0]] + a.drop_first());
            assert(b =~= seq![b[0]] + b.drop_first());
        }
    } else if a.len() == 0 && b.len() == 0 {
        assert(a =~= b);
    }
}

proof fn lemma_bytes_less_transitive(a: Seq<u8>, b: Seq<u8>, c: Seq<u8>)
    requires
        bytes_less(a, b),
        bytes_less(b, c),
    ensures
        bytes_less(a, c),
    decreases a.len(),
{
    if a.len() > 0 && a[0] == b[0] && b[0] == c[0] {
        lemma_bytes_less_transitive(a.drop_first(), b.drop_first(), c.drop_first());
    }
}

/// Compares two byte strings in lexicographic order.
fn less(a: &Vec<u8>, b: &Vec<u8>) -> (r: bool)
    ensures
        r == bytes_less(a@, b@),
{
    let mut i: usize = 0;
    assert(a@.subrange(0, a@.len() as int) =~= a@);
    assert(b@.subrange(0, b@.len() as int) =~= b@);
    while i < a.len() && i < b.len() && a[i] == b[i]
        invariant
            i <= a@.len(),
            i <= b@.len(),
            a@.subrange(0, i as int) == b@.subrange(0, i as int),
            bytes_less(a@, b@) == bytes_less(a@.subrange(i as int, a@.len() as int), b@.subrange(i as int, b@.len() as int)),
        decreases a.len() - i,
    {
        proof {
            let (sa, sb) = (a@.subrange(i as int, a@.len() as int), b@.subrange(i as int, b@.len() as int));
            assert(sa.drop_first() =~= a@.subrange(i + 1, a@.len() as int));
            assert(sb.drop_first() =~= b@.subrange(i + 1, b@.len() as int));
            assert(a@.subrange(0, i + 1) =~= a@.subrange(0, i as int).push(a@[i as int]));
            assert(b@.subrange(0, i + 1) =~= b@.subrange(0, i as int).push(b@[i as int]));
        }
        i = i + 1;
    }
    if i < b.len() {
        if i < a.len() {
            a[i] < b[i]
        } else {
            true
        }
    } else {
        false
    }
}

/// One field of a capability set: its name, the capability type's name, and
/// the event type the capability is generic over.
#[derive(Debug, Clone, PartialEq, Eq)]
pub struct CapabilityField {
    pub field: Vec<u8>,
    pub capability: Vec<u8>,
    pub event: Vec<u8>,
}

/// The declaration derived from a capability set: the shared event type, and
/// the fields sorted by name; each field yields an effect variant named after
/// its capability and wired to that variant.
pub struct EffectDeclaration {
    pub event: Vec<u8>,
    pub fields: Vec<CapabilityField>,
}

/// Why a capability set cannot be declared.
#[derive(Debug, Clone, Copy, PartialEq, Eq, Structural)]
pub enum DeclarationError {
    /// There is no capability field at all.
    NoCapabilities,
    /// Two capabilities are generic over different event types.
    MixedEventTypes,
    /// Two fields carry the same name.
    DuplicateField,
}

/// The field names of `fields` are strictly increasing.
pub open spec fn sorted_by_name(fields: Seq<CapabilityField>) -> bool {
    forall|i: int, j: int| 0 <= i < j < fields.len() ==> bytes_less(#[trigger] fields[i].field@, #[trigger] fields[j].field@)
}

/// All of `fields` share one event type.
pub open spec fn same_event(fields: Seq<CapabilityField>) -> bool {
    forall|i: int| 0 <= i < fields.len() ==> (#[trigger] fields[i]).event@ == fields[0].event@
}

/// Two of `fields` carry the same name.
pub open spec fn has_duplicate(fields: Seq<CapabilityField>) -> bool {
    exists|i: int, j: int| 0 <= i < j < fields.len() && (#[trigger] fields[i]).field@ == (#[trigger] fields[j]).field@
}

/// What makes a capability set impossible to declare, if anything: no field
/// at all, capabilities over different event types, or a repeated field name.
/// A declaration with such a fault is a defect in the application's wiring.
pub fn declaration_fault(fields: &Vec<CapabilityField>) -> (r: Option<DeclarationError>)
    ensures
        fields@.len() == 0 <==> r == Some(DeclarationError::NoCapabilities),
        fields@.len() > 0 && !same_event(fields@) <==> r == Some(DeclarationError::MixedEventTypes),
        fields@.len() > 0 && same_event(fields@) && has_duplicate(fields@) <==> r == Some(DeclarationError::DuplicateField),
{
    if fields.len() == 0 {
        return Some(DeclarationError::NoCapabilities);
    }
    let n: usize = fields.len();
    let mut k: usize = 1;
    while k < n
        invariant
            n == fields@.len(),
            1 <= k <= n,
            forall|i: int| 0 <= i < k ==> (#[trigger] fields@[i]).event@ == fields@[0].event@,
        decreases n - k,
    {
        if !vec_eq(&fields[k].event, &fields[0].event) {
            return Some(DeclarationError::MixedEventTypes);
        }
        k = k + 1;
    }
    let mut i: usize = 0;
    while i < n
        invariant
            n == fields@.len(),
            i <= n,
            same_event(fields@),
            forall|a: int, b: int| 0 <= a < i && a < b < n ==> fields@[a].field@ != fields@[b].field@,
        decreases n - i,
    {
        let mut j: usize = i + 1;
        while j < n
            invariant
                n == fields@.len(),
                i < n,
                i + 1 <= j <= n,
                same_event(fields@),
                forall|a: int, b: int| 0 <= a < i && a < b < n ==> fields@[a].field@ != fields@[b].field@,
                forall|b: int| i < b < j ==> fields@[i as int].field@ != fields@[b].field@,
            decreases n - j,
        {
            if vec_eq(&fields[i].field, &fields[j].field) {
                assert((fields@[i as int]).field@ == (fields@[j as int]).field@);
                assert(has_duplicate(fields@));
                return Some(DeclarationError::DuplicateField);
            }
            j = j + 1;
        }
        i = i + 1;
    }
    None
}

/// Builds the effect declaration of a capability set that has at least one
/// field, one shared event type and no repeated field name (see
/// [`declaration_fault`]): the same fields, sorted by name, over that event
/// type.
pub fn declare_effect(fields: Vec<CapabilityField>) -> (r: EffectDeclaration)
    requires
        fields@.len() > 0,
        same_event(fields@),
        !has_duplicate(fields@),
    ensures
        r.event@ == fields@[0].event@,
        r.fields@.len() == fields@.len(),
        sorted_by_name(r.fields@),
        forall|x: CapabilityField| r.fields@.contains(x) <==> fields@.contains(x),
{
    let event = copy_range(&fields[0].event, 0, fields[0].event.len());
    let ghost input = fields@;
    let mut rest = fields;
    let mut sorted: Vec<CapabilityField> = Vec::new();
    let n: usize = rest.len();
    let mut taken: usize = 0;
    while rest.len() > 0
        invariant
            input.len() == n,
            n > 0,
            input == fields@,
            same_event(input),
            !has_duplicate(input),
            taken + rest@.len() == n,
            rest@ == input.subrange(taken as int, n as int),
            sorted@.len() == taken,
            sorted_by_name(sorted@),
            forall|x: CapabilityField| sorted@.contains(x) <==> input.subrange(0, taken as int).contains(x),
            forall|i: int, j: int| 0 <= i < j < taken ==> input[i].field@ != input[j].field@,
        decreases rest.len(),
    {
        let x = rest.remove(0);
        let ghost prefix = input.subrange(0, taken as int);
        let mut pos: usize = 0;
        while pos < sorted.len() && less(&sorted[pos].field, &x.field)
            invariant
                pos <= sorted@.len(),
                forall|i: int| 0 <= i < pos ==> bytes_less((#[trigger] sorted@[i]).field@, x.field@),
            decreases sorted.len() - pos,
        {
            pos = pos + 1;
        }
        if pos < sorted.len() && vec_eq(&sorted[pos].field, &x.field) {
            proof {
                let y = sorted@[pos as int];
                assert(sorted@.contains(y));
                let i = choose|i: int| 0 <= i < prefix.len() && prefix[i] == y;
                assert(input[i].field@ == input[taken as int].field@);
                assert(has_duplicate(input));
            }
        }
        proof {
            if pos < sorted@.len() {
                lemma_bytes_less_total(sorted@[pos as int].field@, x.field@);
                assert forall|j: int| pos <= j < sorted@.len() implies bytes_less(x.field@, #[trigger] sorted@[j].field@) by {
                    if j > pos {
                        lemma_bytes_less_transitive(x.field@, sorted@[pos as int].field@, sorted@[j].field@);
                    }
                }
            }
            assert forall|i: int| 0 <= i < taken implies input[i].field@ != x.field@ by {
                let y = input[i];
                assert(prefix[i] == y);
                assert(prefix.contains(y));
                assert(sorted@.contains(y));
                lemma_bytes_less_irreflexive(x.field@);
            }
        }
        let ghost before = sorted@;
        sorted.insert(pos, x);
        proof {
            let next = input.subrange(0, taken + 1);
            assert(next =~= prefix.push(x));
            assert(sorted@ =~= before.insert(pos as int, x));
            assert forall|y: CapabilityField| sorted@.contains(y) <==> next.contains(y) by {
                if sorted@.contains(y) {
                    let k = choose|k: int| 0 <= k < sorted@.len() && sorted@[k] == y;
                    if k < pos {
                        assert(before[k] == y);
                        assert(before.contains(y));
                    } else if k > pos {
                        assert(before[k - 1] == y);
                        assert(before.contains(y));
                    }
                    if y != x {
                        let i = choose|i: int| 0 <= i < prefix.len() && prefix[i] == y;
                        assert(next[i] == y);
                    } else {
                        assert(next[taken as int] == y);
                    }
                }
                if next.contains(y) {
                    let i = choose|i: int| 0 <= i < next.len() && next[i] == y;
                    if i < taken {
                        assert(prefix[i] == y);
                        assert(prefix.contains(y));
                        assert(before.contains(y));
                        let k = choose|k: int| 0 <= k < before.len() && before[k] == y;
                        if k < pos {
                            assert(sorted@[k] == y);
                        } else {
                            assert(sorted@[k + 1] == y);
                        }
                    } else {
                        assert(sorted@[pos as int] == y);
                    }
                }
            }
            assert forall|i: int, j: int| 0 <= i < j < sorted@.len() implies bytes_less(#[trigger] sorted@[i].field@, #[trigger] sorted@[j].field@) by {
                if j < pos {
                    assert(sorted@[i] == before[i] && sorted@[j] == before[j]);
                } else if j == pos {
                    assert(sorted@[i] == before[i]);
                } else if i == pos {
                    assert(sorted@[j] == before[j - 1]);
                } else if i < pos {
                    assert(sorted@[i] == before[i] && sorted@[j] == before[j - 1]);
                    lemma_bytes_less_transitive(before[i].field@, x.field@, before[j - 1].field@);
                } else {
                    assert(sorted@[i] == before[i - 1] && sorted@[j] == before[j - 1]);
                }
            }
        }
        taken = taken + 1;
    }
    proof {
        assert(input.subrange(0, n as int) =~= input);
    }
    assert(event@ =~= input[0].event@);
    EffectDeclaration { event, fields: sorted }
}

/// Byte-wise equality of two byte strings.
fn vec_eq(a: &Vec<u8>, b: &Vec<u8>) -> (r: bool)
    ensures
        r == (a@ == b@),
{
    if a.len() != b.len() {
        return false;
    }
    let mut i: usize = 0;
    while i < a.len()
        invariant
            a@.len() == b@.len(),
            i <= a@.len(),
            forall|j: int| 0 <= j < i ==> a@[j] == b@[j],
        decreases a.len() - i,
    {
        if a[i] != b[i] {
            return false;
        }
        i = i + 1;
    }
    assert(a@ =~= b@);
    true
}

/// Splits the text of a capability type `Name<Event>` into the capability's
/// name and its first generic argument. A capability that is not generic over
/// one event type is a declaration defect, left out here (see
/// [`capability_type_parts`]).
pub fn split_event_type(ty: &Vec<u8>) -> (r: (Vec<u8>, Vec<u8>))
    requires
        exists|name: Seq<u8>, event: Seq<u8>| is_generic_over(ty@, name, event),
    ensures
        is_generic_over(ty@, r.0@, r.1@),
{
    match capability_type_parts(ty) {
        Some(parts) => parts,
        None => {
            proof {
                assert(false);
            }
            (Vec::new(), Vec::new())
        },
    }
}

/// The bytes of `a` from `from` up to `to`, copied.
fn copy_range(a: &Vec<u8>, from: usize, to: usize) -> (r: Vec<u8>)
    requires
        from <= to <= a@.len(),
    ensures
        r@ == a@.subrange(from as int, to as int),
{
    let mut r: Vec<u8> = Vec::new();
    let mut i: usize = from;
    while i < to
        invariant
            from <= i <= to,
            to <= a@.len(),
            r@ == a@.subrange(from as int, i as int),
        decreases to - i,
    {
        r.push(a[i]);
        i = i + 1;
        assert(r@ =~= a@.subrange(from as int, i as int));
    }
    r
}

pub const OPEN_ANGLE: u8 = 0x3c;

pub const CLOSE_ANGLE: u8 = 0x3e;

pub const COMMA: u8 = 0x2c;

/// How many angle brackets `s` leaves open: each `<` counts one up, each
/// `>` one down.
pub open spec fn angle_depth(s: Seq<u8>) -> int
    decreases s.len(),
{
    if s.len() == 0 {
        0
    } else {
        angle_depth(s.drop_last()) + if s.last() == OPEN_ANGLE {
            1int
        } else if s.last() == CLOSE_ANGLE {
            -1int
        } else {
            0int
        }
    }
}

/// Position `i` of `s` holds a comma outside every angle bracket.
pub open spec fn top_level_comma(s: Seq<u8>, i: int) -> bool {
    s[i] == COMMA && angle_depth(s.take(i)) == 0
}

/// `ty` is the text of a capability type `name<event, ...>`: a non-empty name
/// with no `<` in it, and `event` its first generic argument, which is
/// non-empty, closes every bracket it opens and holds no top-level comma.
pub open spec fn is_generic_over(ty: Seq<u8>, name: Seq<u8>, event: Seq<u8>) -> bool {
    let end: int = (name.len() + 1 + event.len()) as int;
    &&& name.len() > 0
    &&& event.len() > 0
    &&& !name.contains(OPEN_ANGLE)
    &&& angle_depth(event) == 0
    &&& forall|i: int| 0 <= i < event.len() ==> !top_level_comma(event, i)
    &&& ty.len() >= end + 1
    &&& ty.subrange(0, name.len() as int) == name
    &&& ty[name.len() as int] == OPEN_ANGLE
    &&& ty.subrange(name.len() + 1int, end) == event
    &&& ty.last() == CLOSE_ANGLE
    &&& (ty.len() == end + 1 || ty[end] == COMMA)
}

/// The argument scan may stop at `j`: the last byte, or a top-level comma.
spec fn stops_at(ty: Seq<u8>, start: int, j: int) -> bool {
    j == ty.len() - 1 || (ty[j] == COMMA && angle_depth(ty.subrange(start, j)) == 0)
}

/// The capability's name and its first generic argument, when `ty` is the
/// text of a capability type `Name<Event>`; `None` where it has no such shape.
pub fn capability_type_parts(ty: &Vec<u8>) -> (r: Option<(Vec<u8>, Vec<u8>)>)
    ensures
        r matches Some((name, event)) ==> is_generic_over(ty@, name@, event@),
        r is None ==> forall|name: Seq<u8>, event: Seq<u8>| !is_generic_over(ty@, name, event),
{
    let len: usize = ty.len();
    let mut p: usize = 0;
    while p < len && ty[p] != OPEN_ANGLE
        invariant
            p <= len == ty@.len(),
            forall|i: int| 0 <= i < p ==> ty@[i] != OPEN_ANGLE,
        decreases len - p,
    {
        p = p + 1;
    }
    proof {
        assert forall|name: Seq<u8>, event: Seq<u8>| is_generic_over(ty@, name, event) implies name.len() == p by {
            if name.len() < p {
                assert(ty@[name.len() as int] != OPEN_ANGLE);
            } else if name.len() > p {
                assert(ty@.subrange(0, name.len() as int)[p as int] == ty@[p as int]);
                assert(name.contains(ty@[p as int]));
            }
        }
    }
    if p == 0 || p >= len || len - p < 3 || ty[len - 1] != CLOSE_ANGLE {
        return None;
    }
    let start: usize = p + 1;
    let mut j: usize = start;
    let mut opens: usize = 0;
    let mut closes: usize = 0;
    while j < len - 1 && !(ty[j] == COMMA && opens == closes)
        invariant
            start <= j <= len - 1,
            len == ty@.len(),
            opens <= j,
            closes <= j,
            opens - closes == angle_depth(ty@.subrange(start as int, j as int)),
            forall|k: int| start <= k < j ==> !stops_at(ty@, start as int, k),
        decreases len - j,
    {
        proof {
            assert(ty@.subrange(start as int, j + 1).drop_last() =~= ty@.subrange(start as int, j as int));
        }
        if ty[j] == OPEN_ANGLE {
            opens = opens + 1;
        } else if ty[j] == CLOSE_ANGLE {
            closes = closes + 1;
        }
        j = j + 1;
    }
    let ghost sub = ty@.subrange(start as int, j as int);
    proof {
        assert(stops_at(ty@, start as int, j as int));
        assert forall|name: Seq<u8>, event: Seq<u8>| is_generic_over(ty@, name, event) implies j == start + event.len()
            && sub == event by {
            let e_end = start + event.len();
            if e_end < j {
                assert(ty@[e_end] == COMMA);
                assert(ty@.subrange(start as int, e_end) == event);
                assert(stops_at(ty@, start as int, e_end));
            } else if e_end > j {
                let i = j - start;
                assert(ty@.subrange(start as int, e_end)[i] == ty@[j as int]);
                assert(event.take(i) =~= ty@.subrange(start as int, j as int));
                assert(top_level_comma(event, i));
            }
        }
    }
    if j == start || opens != closes || (j < len - 1 && ty[j] != COMMA) {
        return None;
    }
    let name = copy_range(ty, 0, p);
    let event = copy_range(ty, start, j);
    proof {
        assert forall|x: u8| name@.contains(x) implies x != OPEN_ANGLE by {
            let i = choose|i: int| 0 <= i < name@.len() && name@[i] == x;
            assert(ty@[i] == x);
        }
        assert forall|i: int| 0 <= i < event@.len() implies !top_level_comma(event@, i) by {
            assert(event@.take(i) =~= ty@.subrange(start as int, start + i));
            assert(!stops_at(ty@, start as int, start + i));
        }
    }
    Some((name, event))
}

} // verus!
