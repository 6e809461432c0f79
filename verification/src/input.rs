//! Body records as text.
//!
//! The text holds one record per line. A record is a row of numbers
//! separated by spaces: an identifier, which is read and then ignored, the
//! mass, three position components and three velocity components. Further
//! numbers on a line are read and ignored. Empty lines are skipped.
//!
//! Splitting the text is done here; so is the assembly of bodies from the
//! numbers. Turning one token into a number is the number type's business:
//! the caller does that in between and marks a token that is no number
//! with `None`.
use vstd::prelude::*;
use crate::body::Body;
use crate::scalar::Scalar;
use crate::vector::Vec3;

verus! {

/// The byte that ends a line.
pub const NEWLINE: u8 = 10;

/// The byte that separates the numbers of a record.
pub const SPACE: u8 = 32;

/// The least number of fields in a record.
pub const RECORD_FIELDS: usize = 8;

/// The maximal runs of bytes other than `separator` in `text`, in order.
/// No run is empty.
pub open spec fn runs(text: Seq<u8>, separator: u8) -> Seq<Seq<u8>>
    decreases text.len(),
{
    if text.len() == 0 {
        Seq::empty()
    } else {
        let before = runs(text.drop_last(), separator);
        if text.last() == separator {
            before
        } else if text.len() >= 2 && text[text.len() - 2] != separator {
            before.drop_last().push(before.last().push(text.last()))
        } else {
            before.push(seq![text.last()])
        }
    }
}

/// The contents of a vector of byte strings.
pub open spec fn contents(strings: Seq<Vec<u8>>) -> Seq<Seq<u8>> {
    Seq::new(strings.len(), |k: int| strings[k]@)
}

/// Splits `text` at every `separator` and drops the empty pieces.
pub fn split_runs(text: &[u8], separator: u8) -> (pieces: Vec<Vec<u8>>)
    ensures
        contents(pieces@) == runs(text@, separator),
{
    let mut pieces: Vec<Vec<u8>> = Vec::new();
    let mut current: Vec<u8> = Vec::new();
    let mut i: usize = 0;
    while i < text.len()
        invariant
            i <= text.len(),
            current.len() > 0 ==> i > 0 && text[i - 1] != separator && runs(
                text@.take(i as int),
                separator,
            ) == contents(pieces@).push(current@),
            current.len() == 0 ==> (i == 0 || text[i - 1] == separator) && runs(
                text@.take(i as int),
                separator,
            ) == contents(pieces@),
        decreases text.len() - i,
    {
        let byte: u8 = text[i];
        proof {
            let now = text@.take(i + 1);
            assert(now.drop_last() =~= text@.take(i as int));
            assert(now.last() == byte);
            if i > 0 {
                assert(now[now.len() - 2] == text[i - 1]);
            }
        }
        if byte == separator {
            if current.len() > 0 {
                let ghost filed = contents(pieces@).push(current@);
                pieces.push(current);
                current = Vec::new();
                proof {
                    assert(contents(pieces@) =~= filed);
                }
            }
        } else {
            let ghost grown = current@.push(byte);
            let ghost filed = contents(pieces@);
            current.push(byte);
            proof {
                if grown.len() > 1 {
                    assert(filed.push(grown.drop_last()).drop_last() =~= filed);
                    assert(grown.drop_last().push(byte) =~= grown);
                } else {
                    assert(grown =~= seq![byte]);
                }
            }
        }
        i = i + 1;
    }
    proof {
        assert(text@.take(text.len() as int) =~= text@);
    }
    if current.len() > 0 {
        let ghost filed = contents(pieces@).push(current@);
        pieces.push(current);
        proof {
            assert(contents(pieces@) =~= filed);
        }
    }
    pieces
}

/// No run is empty, and none holds the separator.
pub proof fn lemma_runs_are_clean(text: Seq<u8>, separator: u8)
    ensures
        forall|k: int|
            0 <= k < runs(text, separator).len() ==> {
                &&& (#[trigger] runs(text, separator)[k]).len() > 0
                &&& !runs(text, separator)[k].contains(separator)
            },
        text.len() > 0 && text.last() != separator ==> runs(text, separator).len() > 0,
    decreases text.len(),
{
    if text.len() > 0 {
        let before = runs(text.drop_last(), separator);
        lemma_runs_are_clean(text.drop_last(), separator);
        if text.last() != separator {
            if text.len() >= 2 && text[text.len() - 2] != separator {
                assert(text.drop_last().last() == text[text.len() - 2]);
                let grown = before.last().push(text.last());
                assert(!grown.contains(separator)) by {
                    if grown.contains(separator) {
                        let j = choose|j: int| 0 <= j < grown.len() && grown[j] == separator;
                        assert(before.last()[j] == separator);
                        assert(before[before.len() - 1].contains(separator));
                    }
                }
            } else {
                let single = seq![text.last()];
                assert(!single.contains(separator)) by {
                    if single.contains(separator) {
                        let j = choose|j: int| 0 <= j < single.len() && single[j] == separator;
                    }
                }
            }
        }
    }
}

/// The non-empty lines of `text`, in order.
pub fn lines(text: &[u8]) -> (pieces: Vec<Vec<u8>>)
    ensures
        contents(pieces@) == runs(text@, NEWLINE),
{
    split_runs(text, NEWLINE)
}

/// The fields of one line, in order.
pub fn fields(line: &[u8]) -> (pieces: Vec<Vec<u8>>)
    ensures
        contents(pieces@) == runs(line@, SPACE),
{
    split_runs(line, SPACE)
}

/// Why the input was turned down.
#[derive(Clone, Copy, Debug, PartialEq, Eq, Structural)]
pub enum InputError {
    /// A field of a record is not a number.
    NotANumber { record: usize, field: usize },
    /// A record has fewer fields than a body needs.
    TooFewFields { record: usize, found: usize },
}

/// Every field is a number.
pub open spec fn all_numbers<S: Scalar>(fields: Seq<Option<S>>) -> bool {
    forall|k: int| 0 <= k < fields.len() ==> (#[trigger] fields[k]) is Some
}

/// Field `k` is the first that is not a number.
pub open spec fn is_first_gap<S: Scalar>(fields: Seq<Option<S>>, k: int) -> bool {
    &&& 0 <= k < fields.len()
    &&& fields[k] is None
    &&& forall|j: int| 0 <= j < k ==> (#[trigger] fields[j]) is Some
}

/// The first field that is not a number, where there is one.
pub open spec fn first_gap<S: Scalar>(fields: Seq<Option<S>>) -> int {
    choose|k: int| is_first_gap(fields, k)
}

/// What is wrong with record number `record`, if anything. A field that
/// is not a number is reported before a shortage of fields.
pub open spec fn record_fault<S: Scalar>(fields: Seq<Option<S>>, record: usize) -> Option<
    InputError,
> {
    if !all_numbers(fields) {
        Some(InputError::NotANumber { record, field: first_gap(fields) as usize })
    } else if fields.len() < RECORD_FIELDS {
        Some(InputError::TooFewFields { record, found: fields.len() as usize })
    } else {
        None
    }
}

/// The body that a sound record describes: field 1 is the mass, fields 2
/// to 4 the position, fields 5 to 7 the velocity.
pub open spec fn record_body<S: Scalar>(fields: Seq<Option<S>>) -> Body<S> {
    Body::at_rest(
        fields[1].unwrap(),
        Vec3 { x: fields[2].unwrap(), y: fields[3].unwrap(), z: fields[4].unwrap() },
        Vec3 { x: fields[5].unwrap(), y: fields[6].unwrap(), z: fields[7].unwrap() },
    )
}

/// There is at most one first gap.
pub proof fn lemma_first_gap_is_unique<S: Scalar>(fields: Seq<Option<S>>, k: int)
    requires
        is_first_gap(fields, k),
    ensures
        first_gap(fields) == k,
        !all_numbers(fields),
{
    let c = first_gap(fields);
    assert(is_first_gap(fields, c));
    if c < k {
        assert(fields[c] is Some);
    }
    if k < c {
        assert(fields[k] is Some);
    }
}

/// Makes the body that record number `record` describes, or says what is
/// wrong with the record.
pub fn body_from_fields<S: Scalar>(fields: &Vec<Option<S>>, record: usize) -> (r: Result<
    Body<S>,
    InputError,
>)
    ensures
        match record_fault(fields@, record) {
            Some(e) => r == Err::<Body<S>, InputError>(e),
            None => r == Ok::<Body<S>, InputError>(record_body(fields@)),
        },
{
    let mut k: usize = 0;
    while k < fields.len()
        invariant
            k <= fields.len(),
            forall|j: int| 0 <= j < k ==> (#[trigger] fields[j]) is Some,
        decreases fields.len() - k,
    {
        if fields[k].is_none() {
            proof {
                lemma_first_gap_is_unique(fields@, k as int);
            }
            return Err(InputError::NotANumber { record, field: k });
        }
        k = k + 1;
    }
    if fields.len() < RECORD_FIELDS {
        return Err(InputError::TooFewFields { record, found: fields.len() });
    }
    let mass = fields[1].unwrap();
    let position = Vec3::new(fields[2].unwrap(), fields[3].unwrap(), fields[4].unwrap());
    let velocity = Vec3::new(fields[5].unwrap(), fields[6].unwrap(), fields[7].unwrap());
    Ok(Body::new(mass, position, velocity))
}

/// Every record before number `end` is sound.
pub open spec fn sound_before<S: Scalar>(records: Seq<Vec<Option<S>>>, end: int) -> bool {
    forall|i: int| 0 <= i < end ==> record_fault((#[trigger] records[i])@, i as usize) is None
}

/// Makes the store from the records, in order. The first record that is
/// not sound stops everything: no store is made from part of the input.
pub fn bodies_from_records<S: Scalar>(records: &Vec<Vec<Option<S>>>) -> (r: Result<
    Vec<Body<S>>,
    InputError,
>)
    ensures
        match r {
            Ok(bodies) => {
                &&& sound_before(records@, records.len() as int)
                &&& bodies@ == Seq::new(records.len() as nat, |i: int| record_body(records[i]@))
            },
            Err(e) => exists|i: int|
                {
                    &&& 0 <= i < records.len()
                    &&& sound_before(records@, i)
                    &&& record_fault(#[trigger] records[i]@, i as usize) == Some(e)
                },
        },
{
    let mut bodies: Vec<Body<S>> = Vec::new();
    let mut i: usize = 0;
    while i < records.len()
        invariant
            i <= records.len(),
            sound_before(records@, i as int),
            bodies@ == Seq::new(i as nat, |k: int| record_body(records[k]@)),
        decreases records.len() - i,
    {
        match body_from_fields(&records[i], i) {
            Ok(body) => {
                bodies.push(body);
            },
            Err(e) => {
                return Err(e);
            },
        }
        proof {
            assert(bodies@ =~= Seq::new((i + 1) as nat, |k: int| record_body(records[k]@)));
        }
        i = i + 1;
    }
    Ok(bodies)
}

} // verus!
