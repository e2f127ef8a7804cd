//! The greeting for the user's birthday and age in days.

use crate::chars::{chars_of, push_all, signed_decimal, signed_decimal_spec, starts_with_spec, string_of};
use crate::date::{chrono_parse_date, days_from_civil, parse_date, Date, DateView};
use vstd::prelude::*;

verus! {

/// The comment on an age of `day_count` days: the age, with a remark on
/// every thousandth day; a question for a negative age; a welcome on the
/// day of birth.
pub open spec fn message_spec(day_count: int) -> Seq<char> {
    if day_count > 0 {
        "You are "@ + signed_decimal_spec(day_count) + " days old."@ + (if day_count % 1000 == 0 {
            " That's a nice, round number!"@
        } else {
            Seq::<char>::empty()
        })
    } else if day_count < 0 {
        "Are you from the future?"@
    } else {
        "Looks like you're new here."@
    }
}

/// The comment on the user's age in days.
pub fn make_message(day_count: i64) -> (r: String)
    ensures
        r@ == message_spec(day_count as int),
{
    if day_count > 0 {
        let mut v = chars_of("You are ");
        let n = signed_decimal(day_count);
        push_all(&mut v, &n);
        let tail = chars_of(" days old.");
        push_all(&mut v, &tail);
        if day_count % 1000 == 0 {
            let nice = chars_of(" That's a nice, round number!");
            push_all(&mut v, &nice);
        } else {
            assert(v@ + Seq::<char>::empty() =~= v@);
        }
        string_of(&v)
    } else if day_count < 0 {
        string_of(&chars_of("Are you from the future?"))
    } else {
        string_of(&chars_of("Looks like you're new here."))
    }
}

/// The number of days from `birth` to `today`.
pub open spec fn age_in_days(birth: DateView, today: DateView) -> int {
    days_from_civil(today.year, today.month, today.day) - days_from_civil(birth.year, birth.month, birth.day)
}

/// The greeting on `today` for a user born on `birth`: a birthday wish where
/// the month and day are those of the birth, then the comment on the age.
pub open spec fn birthday_message_spec(birth: DateView, today: DateView) -> Seq<char> {
    (if birth.month == today.month && birth.day == today.day {
        "Happy birthday! "@
    } else {
        Seq::<char>::empty()
    }) + message_spec(age_in_days(birth, today))
}

/// The greeting on `today` for a user born on `birthdate`.
pub fn birthday_message(birthdate: &Date, today: &Date) -> (r: String)
    ensures
        r@ == birthday_message_spec(birthdate@, today@),
{
    let mut v: Vec<char> = if birthdate.month() == today.month() && birthdate.day() == today.day() {
        chars_of("Happy birthday! ")
    } else {
        Vec::new()
    };
    let day_count = today.days_since(birthdate);
    let m = make_message(day_count);
    let mc = chars_of(m.as_str());
    push_all(&mut v, &mc);
    string_of(&v)
}

/// The greeting on `today` for the birth date written in `value`
/// (`YYYY-MM-DD`); none where chrono reads no date there.
pub fn birthday_greeting(value: &str, today: &Date) -> (r: Option<String>)
    ensures
        r is Some <==> chrono_parse_date(value@) is Some,
        r matches Some(s) ==> s@ == birthday_message_spec(chrono_parse_date(value@).unwrap(), today@),
{
    match parse_date(value) {
        Some(birthdate) => Some(birthday_message(&birthdate, today)),
        None => None,
    }
}

/// The comment on an age never begins the way a birthday wish does.
proof fn lemma_message_starts_otherwise(day_count: int)
    ensures
        message_spec(day_count).len() > 0,
        message_spec(day_count)[0] != 'H',
{
    reveal_strlit("You are ");
    reveal_strlit("Are you from the future?");
    reveal_strlit("Looks like you're new here.");
    let m = message_spec(day_count);
    if day_count > 0 {
        assert(m[0] == "You are "@[0]);
    }
}

/// The greeting begins with a birthday wish exactly when today's month and
/// day are those of the birth date, whatever the years.
pub proof fn lemma_birthday_wish_only_on_the_day(birth: DateView, today: DateView)
    ensures
        starts_with_spec(birthday_message_spec(birth, today), "Happy birthday! "@) <==> (birth.month == today.month
            && birth.day == today.day),
{
    reveal_strlit("Happy birthday! ");
    let wish = "Happy birthday! "@;
    let m = message_spec(age_in_days(birth, today));
    let g = birthday_message_spec(birth, today);
    lemma_message_starts_otherwise(age_in_days(birth, today));
    if birth.month == today.month && birth.day == today.day {
        assert(g == wish + m);
        assert(g.take(wish.len() as int) =~= wish);
    } else {
        assert(g =~= m);
        if starts_with_spec(g, wish) {
            assert(g[0] == g.take(wish.len() as int)[0]);
            assert(wish[0] == 'H');
        }
    }
}

/// Away from the birthday the greeting is the comment on the age alone; on
/// it, the wish comes first and the same comment follows.
pub proof fn lemma_birthday_wish_adds_only_the_wish(birth: DateView, today: DateView)
    ensures
        birth.month == today.month && birth.day == today.day ==> birthday_message_spec(birth, today) == "Happy birthday! "@
            + message_spec(age_in_days(birth, today)),
        !(birth.month == today.month && birth.day == today.day) ==> birthday_message_spec(birth, today)
            == message_spec(age_in_days(birth, today)),
{
    assert(Seq::<char>::empty() + message_spec(age_in_days(birth, today)) =~= message_spec(age_in_days(birth, today)));
}

/// On the day of birth itself the greeting is the wish and the welcome.
pub proof fn lemma_greeting_on_the_day_of_birth(birth: DateView)
    ensures
        birthday_message_spec(birth, birth) == "Happy birthday! "@ + "Looks like you're new here."@,
{
}

/// The comment on an age remarks on a round number exactly for a positive
/// age that is a multiple of a thousand days.
pub proof fn lemma_round_number_remark(day_count: int)
    ensures
        ends_with_round_remark(message_spec(day_count)) <==> (day_count > 0 && day_count % 1000 == 0),
{
    reveal_strlit(" That's a nice, round number!");
    reveal_strlit(" days old.");
    reveal_strlit("Are you from the future?");
    reveal_strlit("Looks like you're new here.");
    let r = " That's a nice, round number!"@;
    let m = message_spec(day_count);
    if day_count > 0 {
        let head = "You are "@ + signed_decimal_spec(day_count) + " days old."@;
        if day_count % 1000 == 0 {
            assert(m == head + r);
            assert(m.skip(m.len() - r.len()) =~= r);
        } else {
            assert(m =~= head);
            if ends_with_round_remark(m) {
                assert(m[m.len() - 1] == m.skip(m.len() - r.len())[r.len() - 1]);
                assert(m[m.len() - 1] == " days old."@[9]);
            }
        }
    } else if ends_with_round_remark(m) {
        assert(m[m.len() - 1] == m.skip(m.len() - r.len())[r.len() - 1]);
    }
}

/// The text ends with the remark on a round number.
pub open spec fn ends_with_round_remark(s: Seq<char>) -> bool {
    let r = " That's a nice, round number!"@;
    r.len() <= s.len() && s.skip(s.len() - r.len()) == r
}

} // verus!
