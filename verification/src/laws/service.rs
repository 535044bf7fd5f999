//! The remaining requests: numbers, limits, the watch for a new binary, and who may ask.
use vstd::prelude::*;

use crate::clock::{current_date_val, date_number, date_val, epoch_or_zero, Instant};
use crate::error::{ErrorKind, ServiceError};
use crate::request::{law_request_id_halves, RequestIds};
use crate::self_update::{
    digest, digests_differ, installed_name, replaced, sha256, watch_step, WatchStep,
};
use crate::service::{
    description, require_authorized, require_root, require_sender, step_failed, RequestStep,
};
use crate::text::{decimal, texts};
use crate::transaction::limits::{check_arg_size, total_bytes};

verus! {

/// The day of a number, and its place within the day.
pub open spec fn day_and_place(id: u64, day: u64, place: u64) -> bool {
    id == day * 0x1_0000_0000 + place && place < 0x1_0000_0000
}

/// Numbers count on within a day, and start again at one on another.
pub proof fn law_numbers_count_on(
    ids: &mut RequestIds,
    date: u64,
    id: u64,
    last_day: u64,
    last_place: u64,
)
    requires
        call_ensures(RequestIds::next_on, (ids, date), id),
        date < 0x1_0000_0000,
        day_and_place(old(ids).last(), last_day, last_place),
        last_day == date ==> last_place < 0xffff_ffff,
    ensures
        final(ids).last() == id,
        last_day == date ==> day_and_place(id, date, (last_place + 1) as u64),
        last_day != date ==> day_and_place(id, date, 1),
{
    lemma_next_number(old(ids).last(), date, id, last_day, last_place);
}

proof fn lemma_next_number(last: u64, date: u64, id: u64, last_day: u64, last_place: u64)
    requires
        id == crate::request::next_request_id(last, date),
        date < 0x1_0000_0000,
        day_and_place(last, last_day, last_place),
        last_day == date ==> last_place < 0xffff_ffff,
    ensures
        last_day == date ==> day_and_place(id, date, (last_place + 1) as u64),
        last_day != date ==> day_and_place(id, date, 1),
{
    assert(last_day < 0x1_0000_0000);
    assert(last >> 32 == last_day && last & 0xffff_ffff == last_place) by (bit_vector)
        requires
            last == last_day * 0x1_0000_0000u64 + last_place,
            last_place < 0x1_0000_0000u64,
            last_day < 0x1_0000_0000u64,
    ;
    law_request_id_halves(last, date);
    let place: u64 = id & 0xffff_ffff;
    assert(id == date * 0x1_0000_0000u64 + place && place < 0x1_0000_0000u64) by (bit_vector)
        requires
            id >> 32 == date,
            place == id & 0xffff_ffff,
    ;
}

/// A counter starts where it is told to.
pub proof fn law_numbers_start_where_told(start: u64, ids: RequestIds)
    requires
        call_ensures(RequestIds::new, (start,), ids),
    ensures
        ids.last() == start,
{
}

/// The digits of a date's number are its year, its month and its day.
pub proof fn law_date_is_read_off_its_number(year: i32, month: u32, day: u32, v: u64)
    requires
        call_ensures(date_val, (year, month, day), v),
        0 <= year,
        month < 100,
        day < 100,
    ensures
        v / 10000 == year,
        (v / 100) % 100 == month,
        v % 100 == day,
{
    let months = year as int * 100 + month;
    vstd::arithmetic::div_mod::lemma_fundamental_div_mod_converse(
        v as int,
        100,
        months,
        day as int,
    );
    vstd::arithmetic::div_mod::lemma_fundamental_div_mod_converse(
        months,
        100,
        year as int,
        month as int,
    );
    vstd::arithmetic::div_mod::lemma_fundamental_div_mod_converse(
        v as int,
        10000,
        year as int,
        month as int * 100 + day,
    );
}

/// A reading before the epoch counts as the epoch, any other as it is.
pub proof fn law_time_before_the_epoch_is_zero(seconds: Option<u64>, s: u64)
    requires
        call_ensures(epoch_or_zero, (seconds,), s),
    ensures
        seconds is None ==> s == 0,
        seconds is Some ==> s == seconds->0,
{
}

/// The time between two readings, and nothing if the other one is later.
pub proof fn law_time_between_readings(a: Instant, b: Instant, d: u64)
    requires
        call_ensures(Instant::saturating_duration_since, (&a, b), d),
    ensures
        b.nanos <= a.nanos ==> b.nanos + d == a.nanos,
        b.nanos > a.nanos ==> d == 0,
{
}

/// The bytes of the strings in all.
pub open spec fn bytes_of(list: Seq<String>) -> nat
    decreases list.len(),
{
    if list.len() == 0 {
        0
    } else {
        vstd::utf8::encode_utf8(list[0]@).len() + bytes_of(list.drop_first())
    }
}

proof fn lemma_bytes(list: Seq<String>)
    ensures
        total_bytes(texts(list)) == bytes_of(list),
    decreases list.len(),
{
    reveal_with_fuel(total_bytes, 2);
    reveal_with_fuel(bytes_of, 2);
    if list.len() == 1 {
        assert(texts(list).last() == list[0]@);
    } else if list.len() > 1 {
        let inner = list.drop_first().drop_last();
        lemma_bytes(list.drop_first());
        lemma_bytes(list.drop_last());
        lemma_bytes(inner);
        assert(list.drop_last().drop_first() =~= inner);
        assert(texts(list).drop_last() =~= texts(list.drop_last()));
        assert(texts(list).last() == list.last()@);
        assert(texts(list.drop_first()).drop_last() =~= texts(inner));
        assert(texts(list.drop_first()).last() == list.last()@);
    }
}

/// Arguments are accepted exactly if there are at most 65,536 of them with at most sixteen
/// mebibytes in all, those to be installed and those to be removed together.
pub proof fn law_arguments_are_limited_together(
    install: &[String],
    remove: &[String],
    r: Result<(), ServiceError>,
)
    requires
        call_ensures(check_arg_size, (install, remove), r),
    ensures
        r is Ok <==> install@.len() + remove@.len() <= 65_536 && bytes_of(install@) + bytes_of(
            remove@,
        ) <= 16_777_216,
        r is Err ==> r->Err_0.kind == ErrorKind::LimitsExceeded,
{
    lemma_bytes(install@);
    lemma_bytes(remove@);
    if r is Err {
        assert(r->Err_0@ == (r->Err_0.kind, r->Err_0.message@));
    }
}

/// The kernel's suffix is taken off, once, and nothing else is.
pub proof fn law_installed_name_lacks_the_suffix(name: &str, r: String)
    requires
        call_ensures(installed_name, (name,), r),
    ensures
        r@ == name@ || r@ + " (deleted)"@ == name@,
        forall|base: Seq<char>| name@ == #[trigger] (base + " (deleted)"@) ==> r@ == base,
{
    let end = crate::self_update::DELETED_SUFFIX@;
    assert(end == " (deleted)"@);
    if crate::text::ends_with(name@, end) {
        assert(r@ + end =~= name@);
    }
    assert forall|base: Seq<char>| name@ == #[trigger] (base + " (deleted)"@) implies r@
        == base by {
        assert(name@.subrange(name@.len() - end.len(), name@.len() as int) =~= end);
        assert(name@.subrange(0, name@.len() - end.len()) =~= base);
    }
}

/// A binary is replaced exactly if the installed one can be read, and the running one cannot or
/// has another digest.
pub proof fn law_replacement_is_told_by_contents(
    running: Option<&[u8]>,
    installed: Option<&[u8]>,
    r: bool,
)
    requires
        call_ensures(replaced, (running, installed), r),
    ensures
        installed is None ==> !r,
        installed is Some && running is None ==> r,
        installed is Some && running is Some ==> (r <==> sha256(running->0@) != sha256(
            installed->0@,
        )),
{
}

/// The same of digests.
pub proof fn law_replacement_is_told_by_digests(
    running: Option<[u8; 32]>,
    installed: Option<[u8; 32]>,
    r: bool,
)
    requires
        call_ensures(digests_differ, (running, installed), r),
    ensures
        installed is None ==> !r,
        installed is Some && running is None ==> r,
        installed is Some && running is Some ==> (r <==> running->0@ != installed->0@),
{
}

/// A binary has landed exactly if a file of its name was moved in, or closed after writing.
/// Otherwise, if events were lost, the files are compared; and else nothing is done.
pub proof fn law_watch_heeds_its_file(
    name: Option<&[u8]>,
    mask: u32,
    file_name: &[u8],
    step: WatchStep,
)
    requires
        call_ensures(watch_step, (name, mask, file_name), step),
    ensures
        step is Landed <==> name is Some && name->0@ == file_name@ && (mask & 0x80 != 0 || mask
            & 0x8 != 0),
        step is Compare <==> step !is Landed && mask & 0x4000 != 0,
        step is Wait <==> step !is Landed && mask & 0x4000 == 0,
{
    assert((mask & (0x80u32 | 0x8u32) != 0) <==> (mask & 0x80 != 0 || mask & 0x8 != 0))
        by (bit_vector);
    assert((mask & 0x4000 == 0x4000) <==> (mask & 0x4000 != 0)) by (bit_vector);
}

/// A request without a sender is denied, any other goes on under its sender's name.
pub proof fn law_sender_is_required(sender: Option<String>, r: Result<String, ServiceError>)
    requires
        call_ensures(require_sender, (sender,), r),
    ensures
        r is Ok <==> sender is Some,
        r is Ok ==> r->Ok_0@ == sender->0@,
        r is Err ==> r->Err_0.kind == ErrorKind::AccessDenied,
{
    if r is Err {
        assert(r->Err_0@ == (r->Err_0.kind, r->Err_0.message@));
    }
}

/// A request goes on exactly if it was authorized, and is denied otherwise.
pub proof fn law_authorization_is_required(is_authorized: bool, r: Result<(), ServiceError>)
    requires
        call_ensures(require_authorized, (is_authorized,), r),
    ensures
        r is Ok <==> is_authorized,
        r is Err ==> r->Err_0.kind == ErrorKind::AccessDenied,
{
    if r is Err {
        assert(r->Err_0@ == (r->Err_0.kind, r->Err_0.message@));
    }
}

/// Root alone has the index looked after.
pub proof fn law_root_is_required(uid: u32, r: Result<(), ServiceError>)
    requires
        call_ensures(require_root, (uid,), r),
    ensures
        r is Ok <==> uid == 0,
        r is Err ==> r->Err_0.kind == ErrorKind::AccessDenied,
{
    if r is Err {
        assert(r->Err_0@ == (r->Err_0.kind, r->Err_0.message@));
    }
}

/// A description that was found is told as it is.
pub proof fn law_description_is_told(found: Option<String>, d: String)
    requires
        call_ensures(description, (found,), d),
    ensures
        found is Some ==> d@ == found->0@,
        found is None ==> d@.len() > 0,
{
    reveal_strlit("No description available.");
}

/// Why a step failed is told, whichever it is.
pub proof fn law_failed_step_is_told(step: RequestStep, why: &str, e: ServiceError)
    requires
        call_ensures(step_failed, (step, why), e),
    ensures
        e.kind == ErrorKind::Failed,
        exists|said: Seq<char>| e.message@ == #[trigger] (said + why@),
        step == RequestStep::Plain ==> e.message@ == why@,
{
    reveal_strlit("");
    assert(e@ == (e.kind, e.message@));
    if step == RequestStep::Plain {
        assert(""@ + why@ =~= why@);
    }
}

proof fn lemma_date_digits(year: int, month: int, day: int, date: u64)
    requires
        1969 <= year <= 262143,
        1 <= month <= 12,
        1 <= day <= 31,
        date == year * 10000 + month * 100 + day,
    ensures
        is_a_date(date),
{
    let months = year * 100 + month;
    vstd::arithmetic::div_mod::lemma_fundamental_div_mod_converse(date as int, 100, months, day);
    vstd::arithmetic::div_mod::lemma_fundamental_div_mod_converse(months, 100, year, month);
    vstd::arithmetic::div_mod::lemma_fundamental_div_mod_converse(
        date as int,
        10000,
        year,
        month * 100 + day,
    );
}

/// The number's digits are those of a year, a month and a day.
pub open spec fn is_a_date(date: u64) -> bool {
    1969 <= date / 10000 && 1 <= (date / 100) % 100 <= 12 && 1 <= date % 100 <= 31
}

/// Today's number is read off as a year, a month and a day.
pub proof fn law_today_is_a_date(v: u64)
    requires
        call_ensures(current_date_val, (), v),
    ensures
        is_a_date(v),
        v < 0x1_0000_0000,
{
    let (year, month, day) = choose|year: int, month: int, day: int|
        1969 <= year <= 262143 && 1 <= month <= 12 && 1 <= day <= 31 && v
            == #[trigger] date_number(year, month, day);
    lemma_date_digits(year, month, day, v);
}

/// A number is given out for a day, and is the next of that day after the last, or its first.
pub proof fn law_numbers_are_given_out_by_day(
    ids: &mut RequestIds,
    id: u64,
    last_day: u64,
    last_place: u64,
)
    requires
        call_ensures(RequestIds::generate_next_request_id, (ids,), id),
        day_and_place(old(ids).last(), last_day, last_place),
        last_place < 0xffff_ffff,
    ensures
        final(ids).last() == id,
        exists|day: u64, place: u64|
            {
                &&& #[trigger] day_and_place(id, day, place)
                &&& day == last_day ==> place == last_place + 1
                &&& day != last_day ==> place == 1
                &&& is_a_date(day)
            },
{
    let last = old(ids).last();
    let (year, month, day) = choose|year: int, month: int, day: int|
        {
            &&& 1969 <= year <= 262143
            &&& 1 <= month <= 12
            &&& 1 <= day <= 31
            &&& #[trigger] date_number(year, month, day) < 0x1_0000_0000
            &&& id == crate::request::next_request_id(
                last,
                date_number(year, month, day) as u64,
            )
        };
    let date: u64 = date_number(year, month, day) as u64;
    lemma_date_digits(year, month, day, date);
    lemma_next_number(last, date, id, last_day, last_place);
    let place: u64 = if date == last_day {
        (last_place + 1) as u64
    } else {
        1
    };
    assert(day_and_place(id, date, place));
}

/// The digest of contents is theirs.
pub proof fn law_digest_is_of_the_contents(contents: &[u8], d: [u8; 32])
    requires
        call_ensures(digest, (contents,), d),
    ensures
        d@ == sha256(contents@),
{
}

/// Which limit arguments go beyond is told, with how far.
pub proof fn law_too_large_arguments_are_told(
    install: &[String],
    remove: &[String],
    r: Result<(), ServiceError>,
)
    requires
        call_ensures(check_arg_size, (install, remove), r),
        r is Err,
    ensures
        install@.len() + remove@.len() > 65_536 ==> r->Err_0.message@
            == "Too many transaction arguments ("@ + decimal(install@.len() + remove@.len())
            + ", limit "@ + decimal(65_536) + ")"@,
        install@.len() + remove@.len() <= 65_536 ==> r->Err_0.message@
            == "Transaction arguments too large ("@ + decimal(
            bytes_of(install@) + bytes_of(remove@),
        ) + " bytes, limit "@ + decimal(16_777_216) + ")"@,
{
    lemma_bytes(install@);
    lemma_bytes(remove@);
    assert(r->Err_0@ == (r->Err_0.kind, r->Err_0.message@));
}

} // verus!
