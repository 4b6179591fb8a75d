//! The recipients file: headerless delimited rows of `number` or
//! `name,number`, and the filter that keeps the recipients whose number
//! normalises.
use vstd::prelude::*;
use vstd::string::StringExecFns;
use crate::number::{is_normal_number, lemma_normalize_is_normal, normalize, process_number, NumberError};
use crate::text::{trim_str, trimmed};

verus! {

#[verifier::external_type_specification]
#[verifier::external_body]
pub struct ExCsvError(csv::Error);

/// One addressee: a display name when names are in use, and a phone number.
pub struct Recipient {
    pub name: Option<String>,
    pub number: String,
}

/// A recipient left out because its number does not normalise.
pub struct Rejected {
    pub name: Option<String>,
    pub error: NumberError,
}

/// Why the recipients file could not be turned into recipients.
#[derive(Clone, Copy, Debug, PartialEq, Eq, Structural)]
pub enum RecipientsError {
    /// The file is not well-formed delimited text (bad UTF-8, rows of unequal length).
    Unreadable,
    /// A row lacks the name or the number it should hold.
    MissingField,
}

/// A recipient as plain values: its name, if any, and its number.
pub type RecipientModel = (Option<Seq<char>>, Seq<char>);

pub open spec fn name_view(name: Option<String>) -> Option<Seq<char>> {
    match name {
        Some(n) => Some(n@),
        None => None,
    }
}

pub open spec fn recipient_view(r: Recipient) -> RecipientModel {
    (name_view(r.name), r.number@)
}

pub open spec fn recipients_view(v: Seq<Recipient>) -> Seq<RecipientModel> {
    Seq::new(v.len(), |i: int| recipient_view(v[i]))
}

pub open spec fn rejected_view(r: Rejected) -> (Option<Seq<char>>, NumberError) {
    (name_view(r.name), r.error)
}

/// The fields of each row, as character sequences.
pub open spec fn rows_view(rows: Seq<Vec<String>>) -> Seq<Seq<Seq<char>>> {
    Seq::new(rows.len(), |i: int| Seq::new(rows[i]@.len(), |j: int| rows[i]@[j]@))
}

/// The rows that csv's reader yields for `data` read without a header row,
/// or `None` where it reports an error.
pub uninterp spec fn csv_rows(data: Seq<u8>) -> Option<Seq<Seq<Seq<char>>>>;

/// Relies on csv's `ReaderBuilder` with `has_headers(false)` and its
/// `records`: the records of `data` with their fields in order, or the first
/// error it reports. Both depend on `data` alone.
#[verifier::external_body]
fn parse_records(data: &[u8]) -> (r: Result<Vec<Vec<String>>, csv::Error>)
    ensures
        match r {
            Ok(rows) => csv_rows(data@) == Some(rows_view(rows@)),
            Err(_) => csv_rows(data@) is None,
        },
{
    csv::ReaderBuilder::new().has_headers(false).from_reader(data).records().map(
        |rec| rec.map(|rec| rec.iter().map(String::from).collect()),
    ).collect()
}

/// How many fields each row must hold.
pub open spec fn row_width(has_names: bool) -> nat {
    if has_names {
        2
    } else {
        1
    }
}

/// The recipient that a row describes: name then number, each trimmed.
pub open spec fn recipient_of_row(row: Seq<Seq<char>>, has_names: bool) -> RecipientModel {
    if has_names {
        (Some(trimmed(row[0])), trimmed(row[1]))
    } else {
        (None, trimmed(row[0]))
    }
}

/// The recipients that the rows describe, or `MissingField` when a row is too short.
pub open spec fn recipients_of_rows(rows: Seq<Seq<Seq<char>>>, has_names: bool) -> Result<
    Seq<RecipientModel>,
    RecipientsError,
> {
    if exists|i: int| 0 <= i < rows.len() && #[trigger] rows[i].len() < row_width(has_names) {
        Err(RecipientsError::MissingField)
    } else {
        Ok(Seq::new(rows.len(), |i: int| recipient_of_row(rows[i], has_names)))
    }
}

/// Turns parsed rows into recipients. With names, a row gives name then
/// number; without, its first field is the number. Fields are trimmed.
/// Fails with `MissingField` exactly when some row has too few fields.
pub fn recipients_from_rows(rows: &Vec<Vec<String>>, has_names: bool) -> (r: Result<
    Vec<Recipient>,
    RecipientsError,
>)
    ensures
        match r {
            Ok(v) => recipients_of_rows(rows_view(rows@), has_names) == Ok::<
                Seq<RecipientModel>,
                RecipientsError,
            >(recipients_view(v@)),
            Err(e) => recipients_of_rows(rows_view(rows@), has_names) == Err::<
                Seq<RecipientModel>,
                RecipientsError,
            >(e),
        },
{
    let ghost rv = rows_view(rows@);
    let mut out: Vec<Recipient> = Vec::new();
    let mut i: usize = 0;
    while i < rows.len()
        invariant
            i <= rows@.len(),
            rv == rows_view(rows@),
            out@.len() == i,
            forall|k: int| 0 <= k < i ==> rv[k].len() >= row_width(has_names),
            forall|k: int|
                0 <= k < i ==> #[trigger] recipient_view(out@[k]) == recipient_of_row(
                    rv[k],
                    has_names,
                ),
        decreases rows@.len() - i,
    {
        let row = &rows[i];
        if has_names {
            if row.len() < 2 {
                assert(rv[i as int].len() < row_width(has_names));
                return Err(RecipientsError::MissingField);
            }
            let name = String::from_str(trim_str(row[0].as_str()));
            let number = String::from_str(trim_str(row[1].as_str()));
            out.push(Recipient { name: Some(name), number });
        } else {
            if row.len() < 1 {
                assert(rv[i as int].len() < row_width(has_names));
                return Err(RecipientsError::MissingField);
            }
            let number = String::from_str(trim_str(row[0].as_str()));
            out.push(Recipient { name: None, number });
        }
        assert(recipient_view(out@[i as int]) == recipient_of_row(rv[i as int], has_names));
        i = i + 1;
    }
    assert(recipients_view(out@) =~= Seq::new(
        rv.len(),
        |k: int| recipient_of_row(rv[k], has_names),
    ));
    Ok(out)
}

/// Parses the recipients file's bytes. `Unreadable` exactly when csv's
/// reader reports an error, else as `recipients_from_rows` on its rows.
pub fn read_recipients(data: &[u8], has_names: bool) -> (r: Result<
    Vec<Recipient>,
    RecipientsError,
>)
    ensures
        csv_rows(data@) is None ==> r == Err::<Vec<Recipient>, RecipientsError>(
            RecipientsError::Unreadable,
        ),
        csv_rows(data@) is Some ==> match r {
            Ok(v) => recipients_of_rows(csv_rows(data@)->Some_0, has_names) == Ok::<
                Seq<RecipientModel>,
                RecipientsError,
            >(recipients_view(v@)),
            Err(e) => recipients_of_rows(csv_rows(data@)->Some_0, has_names) == Err::<
                Seq<RecipientModel>,
                RecipientsError,
            >(e),
        },
{
    match parse_records(data) {
        Ok(rows) => recipients_from_rows(&rows, has_names),
        Err(_) => Err(RecipientsError::Unreadable),
    }
}

/// The recipients whose number normalises, in order, each with its number
/// in normal form.
pub open spec fn kept_of(rs: Seq<RecipientModel>) -> Seq<RecipientModel>
    decreases rs.len(),
{
    if rs.len() == 0 {
        Seq::empty()
    } else {
        let rest = kept_of(rs.drop_last());
        match normalize(rs.last().1) {
            Ok(n) => rest.push((rs.last().0, n)),
            Err(_) => rest,
        }
    }
}

/// The recipients whose number does not normalise, in order, each with the reason.
pub open spec fn rejected_of(rs: Seq<RecipientModel>) -> Seq<(Option<Seq<char>>, NumberError)>
    decreases rs.len(),
{
    if rs.len() == 0 {
        Seq::empty()
    } else {
        let rest = rejected_of(rs.drop_last());
        match normalize(rs.last().1) {
            Ok(_) => rest,
            Err(e) => rest.push((rs.last().0, e)),
        }
    }
}

fn clone_name(name: &Option<String>) -> (r: Option<String>)
    ensures
        name_view(r) == name_view(*name),
{
    match name {
        Some(n) => Some(n.clone()),
        None => None,
    }
}

/// Splits the recipients into those whose number normalises, with the
/// number replaced by its normal form, and those left out, with the reason.
/// Both keep the input order.
pub fn filter_recipients(recipients: &Vec<Recipient>) -> (r: (Vec<Recipient>, Vec<Rejected>))
    ensures
        recipients_view(r.0@) == kept_of(recipients_view(recipients@)),
        r.1@.map_values(|x: Rejected| rejected_view(x)) == rejected_of(recipients_view(recipients@)),
        forall|i: int| 0 <= i < r.0@.len() ==> is_normal_number(#[trigger] r.0@[i].number@),
{
    let ghost rv = recipients_view(recipients@);
    let mut kept: Vec<Recipient> = Vec::new();
    let mut rejected: Vec<Rejected> = Vec::new();
    let mut i: usize = 0;
    while i < recipients.len()
        invariant
            i <= recipients@.len(),
            rv == recipients_view(recipients@),
            recipients_view(kept@) == kept_of(rv.subrange(0, i as int)),
            rejected@.map_values(|x: Rejected| rejected_view(x)) == rejected_of(
                rv.subrange(0, i as int),
            ),
            forall|k: int| 0 <= k < kept@.len() ==> is_normal_number(#[trigger] kept@[k].number@),
        decreases recipients@.len() - i,
    {
        let r = &recipients[i];
        let ghost pre = rv.subrange(0, i as int);
        let ghost next = rv.subrange(0, i + 1);
        assert(next.drop_last() =~= pre);
        assert(next.last() == recipient_view(*r));
        let ghost old_kept = kept@;
        let ghost old_rejected = rejected@;
        match process_number(r.number.as_str()) {
            Ok(n) => {
                proof {
                    lemma_normalize_is_normal(r.number@);
                }
                kept.push(Recipient { name: clone_name(&r.name), number: n });
                assert(recipients_view(kept@) =~= recipients_view(old_kept).push(
                    recipient_view(kept@.last()),
                ));
            },
            Err(e) => {
                rejected.push(Rejected { name: clone_name(&r.name), error: e });
                assert(rejected@.map_values(|x: Rejected| rejected_view(x)) =~= old_rejected.map_values(
                    |x: Rejected| rejected_view(x),
                ).push(rejected_view(rejected@.last())));
            },
        }
        i = i + 1;
    }
    assert(rv.subrange(0, recipients@.len() as int) =~= rv);
    (kept, rejected)
}

/// Every recipient kept has a number in normal form.
pub proof fn lemma_kept_are_normal(rs: Seq<RecipientModel>)
    ensures
        forall|i: int| 0 <= i < kept_of(rs).len() ==> is_normal_number(#[trigger] kept_of(rs)[i].1),
    decreases rs.len(),
{
    if rs.len() > 0 {
        lemma_kept_are_normal(rs.drop_last());
        let rest = kept_of(rs.drop_last());
        lemma_normalize_is_normal(rs.last().1);
        assert forall|i: int| 0 <= i < kept_of(rs).len() implies is_normal_number(
            #[trigger] kept_of(rs)[i].1,
        ) by {
            if i < rest.len() {
                assert(kept_of(rs)[i] == rest[i]);
            }
        }
    }
}

/// Each recipient is either kept or rejected, never both.
pub proof fn lemma_kept_and_rejected_partition(rs: Seq<RecipientModel>)
    ensures
        kept_of(rs).len() + rejected_of(rs).len() == rs.len(),
    decreases rs.len(),
{
    if rs.len() > 0 {
        lemma_kept_and_rejected_partition(rs.drop_last());
    }
}

/// When no recipient's number normalises, nobody is kept, so nothing is sent.
pub proof fn lemma_no_valid_number_keeps_nobody(rs: Seq<RecipientModel>)
    requires
        forall|i: int| 0 <= i < rs.len() ==> (#[trigger] normalize(rs[i].1)) is Err,
    ensures
        kept_of(rs).len() == 0,
        rejected_of(rs).len() == rs.len(),
    decreases rs.len(),
{
    if rs.len() > 0 {
        let front = rs.drop_last();
        assert forall|i: int| 0 <= i < front.len() implies (#[trigger] normalize(front[i].1)) is Err by {
            assert(front[i] == rs[i]);
        }
        assert(normalize(rs[rs.len() - 1].1) is Err);
        lemma_no_valid_number_keeps_nobody(front);
    }
}

} // verus!
