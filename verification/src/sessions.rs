//! Terminal sessions, as `quser` lists them in columns of fixed width.
use vstd::prelude::*;

use crate::json;
use crate::text;
use crate::json::{Json, JsonV};
use crate::text::{chars_of, is_blank, lines, substring, trim};

verus! {

/// The most sessions that are listed.
pub const SESSION_CAP: usize = 200;

/// The characters of a row from `start` on, `len` of them or all, without white space at the
/// ends; nothing where the row is shorter.
pub open spec fn column_v(row: Seq<char>, start: int, len: Option<usize>) -> Seq<char> {
    if start >= row.len() {
        seq![]
    } else {
        let end = match len {
            Some(n) => if start + n <= row.len() {
                start + n
            } else {
                row.len() as int
            },
            None => row.len() as int,
        };
        text::trim_v(row.subrange(start, end))
    }
}

/// One column of a row.
pub fn column(row: &Vec<char>, start: usize, len: Option<usize>) -> (r: String)
    ensures
        r@ == column_v(row@, start as int, len),
{
    if start >= row.len() {
        return String::new();
    }
    let end: usize = match len {
        Some(n) => if n <= row.len() - start {
            start + n
        } else {
            row.len()
        },
        None => row.len(),
    };
    trim(substring(row, start, end).as_str())
}

/// A row in which the mark of the caller's own session is a blank.
pub open spec fn unmarked(line: Seq<char>) -> Seq<char> {
    if line.len() > 0 && line[0] == '>' {
        line.update(0, ' ')
    } else {
        line
    }
}

/// The user of a row.
pub open spec fn row_user(line: Seq<char>) -> Seq<char> {
    column_v(unmarked(line), 1, Some(22))
}

/// The row of a session.
pub open spec fn session_row(line: Seq<char>) -> JsonV {
    let row = unmarked(line);
    JsonV::empty().with("user"@, JsonV::Str(column_v(row, 1, Some(22)))).with(
        "session"@,
        JsonV::Str(column_v(row, 23, Some(18))),
    ).with("id"@, JsonV::Str(column_v(row, 41, Some(4)))).with(
        "state"@,
        JsonV::Str(column_v(row, 45, Some(8))),
    ).with("idle"@, JsonV::Str(column_v(row, 53, Some(11)))).with(
        "logon_time"@,
        JsonV::Str(column_v(row, 64, None)),
    )
}

/// A line describes a session: it is not blank, and names a user.
pub open spec fn is_session(line: Seq<char>) -> bool {
    !text::blank(line) && row_user(line).len() > 0
}

/// The sessions that lines describe, until the cap is reached.
pub open spec fn session_rows(lines: Seq<Seq<char>>) -> Seq<JsonV>
    decreases lines.len(),
{
    if lines.len() == 0 {
        seq![]
    } else {
        let before = session_rows(lines.drop_last());
        if before.len() < SESSION_CAP && is_session(lines.last()) {
            before.push(session_row(lines.last()))
        } else {
            before
        }
    }
}

/// The list of the sessions.
pub open spec fn sessions_v(text: Seq<char>) -> JsonV {
    let lines = text::lines_v(text);
    let rows = session_rows(
        if lines.len() > 0 {
            lines.skip(1)
        } else {
            lines
        },
    );
    let capped = rows.len() >= SESSION_CAP;
    let out = JsonV::empty().with("total"@, JsonV::Int(rows.len() as int)).with(
        "count"@,
        JsonV::Int(rows.len() as int),
    ).with("truncated"@, JsonV::Bool(capped)).with("items"@, JsonV::Arr(rows));
    if capped {
        out.with("next_offset"@, JsonV::Int(200))
    } else {
        out
    }
}

/// The row of a session, where a line describes one.
pub fn read_session(line: &str) -> (r: Option<Json>)
    ensures
        json::opt_model(r) == (if is_session(line@) {
            Some(session_row(line@))
        } else {
            None
        }),
{
    if is_blank(line) {
        return None;
    }
    let mut row = chars_of(line);
    if row.len() > 0 && row[0] == '>' {
        row.set(0, ' ');
    }
    assert(row@ == unmarked(line@));
    let user = column(&row, 1, Some(22));
    if user.as_str().is_empty() {
        return None;
    }
    Some(
        Json::object().with("user", Json::Str(user)).with(
            "session",
            Json::Str(column(&row, 23, Some(18))),
        ).with("id", Json::Str(column(&row, 41, Some(4)))).with(
            "state",
            Json::Str(column(&row, 45, Some(8))),
        ).with("idle", Json::Str(column(&row, 53, Some(11)))).with(
            "logon_time",
            Json::Str(column(&row, 64, None)),
        ),
    )
}

/// The list of the sessions, from what `quser` prints.
pub fn sessions(text: &str) -> (r: Json)
    ensures
        r@ == sessions_v(text@),
{
    let ls = lines(text);
    let ghost all = text::texts(ls@);
    let ghost body = if all.len() > 0 {
        all.skip(1)
    } else {
        all
    };
    let mut rows: Vec<Json> = Vec::new();
    let mut i: usize = 1;
    assert(json::models(rows@) =~= session_rows(body.take(0)));
    while i < ls.len() && rows.len() < SESSION_CAP
        invariant
            1 <= i,
            all == text::texts(ls@),
            all == text::lines_v(text@),
            body == (if all.len() > 0 {
                all.skip(1)
            } else {
                all
            }),
            i <= ls@.len() || ls@.len() == 0,
            ls@.len() > 0 ==> json::models(rows@) == session_rows(body.take(i - 1)),
            ls@.len() == 0 ==> rows@.len() == 0,
            rows@.len() <= SESSION_CAP,
        decreases ls@.len() - i,
    {
        assert(body.take(i as int).drop_last() == body.take(i - 1));
        assert(body.take(i as int).last() == ls@[i as int]@);
        assert(json::models(rows@).len() == rows@.len());
        if let Some(j) = read_session(ls[i].as_str()) {
            let ghost o = rows@;
            let ghost jv = j@;
            rows.push(j);
            assert(json::models(rows@) =~= json::models(o).push(jv));
        }
        i = i + 1;
    }
    proof {
        assert(json::models(rows@).len() == rows@.len());
        if ls@.len() > 0 {
            if rows@.len() < SESSION_CAP {
                assert(body.take(i - 1) =~= body);
            } else {
                lemma_capped(body, i - 1);
            }
        } else {
            assert(json::models(rows@) =~= session_rows(body));
        }
    }
    let capped = rows.len() >= SESSION_CAP;
    let n: u64 = rows.len() as u64;
    let out = Json::object().with("total", Json::UInt(n)).with("count", Json::UInt(n)).with(
        "truncated",
        Json::Bool(capped),
    ).with("items", Json::array(rows));
    if capped {
        out.with("next_offset", Json::UInt(200))
    } else {
        out
    }
}

/// Nothing is listed past the cap.
proof fn lemma_capped(lines: Seq<Seq<char>>, i: int)
    requires
        0 <= i <= lines.len(),
        session_rows(lines.take(i)).len() >= SESSION_CAP,
    ensures
        session_rows(lines) == session_rows(lines.take(i)),
    decreases lines.len(),
{
    if i == lines.len() {
        assert(lines.take(i) == lines);
    } else {
        assert(lines.drop_last().take(i) == lines.take(i));
        lemma_capped(lines.drop_last(), i);
    }
}

/// A column is the trimmed text between its bounds, as far as the row goes.
pub proof fn a_column_stands_between_its_bounds(row: Seq<char>, start: nat, len: usize)
    ensures
        row.len() <= start ==> column_v(row, start as int, Some(len)).len() == 0,
        start < row.len() && start + len <= row.len() ==> column_v(row, start as int, Some(len))
            == text::trim_v(row.skip(start as int).take(len as int)),
        start < row.len() && row.len() < start + len ==> column_v(row, start as int, Some(len))
            == text::trim_v(row.skip(start as int)),
        start < row.len() ==> column_v(row, start as int, None) == text::trim_v(
            row.skip(start as int),
        ),
{
    if start < row.len() {
        assert(row.subrange(start as int, row.len() as int) =~= row.skip(start as int));
        if start + len <= row.len() {
            assert(row.subrange(start as int, start + len) =~= row.skip(start as int).take(
                len as int,
            ));
        }
    }
}

/// The six columns of a row, and where each begins; a mark before the row is no part of it.
pub proof fn a_session_is_told(line: Seq<char>)
    requires
        line.len() > 64,
        line[0] != '>',
    ensures
        ({
            let v = session_row(line);
            &&& v.member("user"@) == Some(JsonV::Str(text::trim_v(line.skip(1).take(22))))
            &&& v.member("session"@) == Some(JsonV::Str(text::trim_v(line.skip(23).take(18))))
            &&& v.member("id"@) == Some(JsonV::Str(text::trim_v(line.skip(41).take(4))))
            &&& v.member("state"@) == Some(JsonV::Str(text::trim_v(line.skip(45).take(8))))
            &&& v.member("idle"@) == Some(JsonV::Str(text::trim_v(line.skip(53).take(11))))
            &&& v.member("logon_time"@) == Some(JsonV::Str(text::trim_v(line.skip(64))))
        }),
        session_row(line.update(0, '>')) == session_row(line.update(0, ' ')),
        row_user(line) == text::trim_v(line.skip(1).take(22)),
{
    reveal_strlit("user");
    reveal_strlit("session");
    reveal_strlit("id");
    reveal_strlit("state");
    reveal_strlit("idle");
    reveal_strlit("logon_time");
    assert("id"@.len() == 2);
    assert("user"@.len() == 4);
    assert("idle"@.len() == 4);
    assert("idle"@[0] == 'i');
    assert("user"@[0] == 'u');
    assert("state"@.len() == 5);
    assert("session"@.len() == 7);
    assert("logon_time"@.len() == 10);
    a_column_stands_between_its_bounds(line, 1, 22);
    a_column_stands_between_its_bounds(line, 23, 18);
    a_column_stands_between_its_bounds(line, 41, 4);
    a_column_stands_between_its_bounds(line, 45, 8);
    a_column_stands_between_its_bounds(line, 53, 11);
    a_column_stands_between_its_bounds(line, 64, 0);
    assert(line.update(0, '>').update(0, ' ') =~= line.update(0, ' '));
}

/// The rows with a user are listed, in their order, the first two hundred of them.
pub proof fn every_session_is_listed(lines: Seq<Seq<char>>)
    ensures
        ({
            let all = lines.filter(
                |l: Seq<char>| text::trim_v(l).len() > 0 && row_user(l).len() > 0,
            ).map_values(|l: Seq<char>| session_row(l));
            session_rows(lines) == (if all.len() <= 200 {
                all
            } else {
                all.take(200)
            })
        }),
    decreases lines.len(),
{
    let g = |l: Seq<char>| text::trim_v(l).len() > 0 && row_user(l).len() > 0;
    let h = |l: Seq<char>| session_row(l);
    reveal(Seq::filter);
    let all = lines.filter(g).map_values(h);
    if lines.len() > 0 {
        let p = lines.drop_last();
        every_session_is_listed(p);
        let before = p.filter(g).map_values(h);
        assert(g(lines.last()) == is_session(lines.last()));
        if g(lines.last()) {
            assert(lines.filter(g) == p.filter(g).push(lines.last()));
            assert(all =~= before.push(h(lines.last())));
            if before.len() > 200 {
                assert(all.take(200) =~= before.take(200));
            }
            if before.len() == 200 {
                assert(all.take(200) =~= before);
            }
        }
    }
}

/// What the listing says: how many rows it has, whether there may be more, and the rows behind
/// the heading.
pub proof fn a_listing_says_what_it_holds(head: Seq<char>, body: Seq<char>)
    requires
        !head.contains('\n'),
    ensures
        ({
            let v = sessions_v(head + seq!['\n'] + body);
            let rows = session_rows(text::lines_v(body));
            &&& v.member("items"@) == Some(JsonV::Arr(rows))
            &&& v.member("total"@) == Some(JsonV::Int(rows.len() as int))
            &&& v.member("count"@) == Some(JsonV::Int(rows.len() as int))
            &&& v.member("truncated"@) == Some(JsonV::Bool(rows.len() >= 200))
            &&& rows.len() >= 200 ==> v.member("next_offset"@) == Some(JsonV::Int(200))
            &&& rows.len() < 200 ==> v.member("next_offset"@) is None
        }),
{
    reveal_strlit("total");
    reveal_strlit("count");
    reveal_strlit("truncated");
    reveal_strlit("items");
    reveal_strlit("next_offset");
    assert("total"@.len() == 5);
    assert("count"@.len() == 5);
    assert("items"@.len() == 5);
    assert("count"@[0] == 'c');
    assert("items"@[0] == 'i');
    assert("total"@[0] == 't');
    assert("truncated"@.len() == 9);
    assert("next_offset"@.len() == 11);
    crate::text::a_text_falls_into_its_lines(head, body);
    let all = text::lines_v(head + seq!['\n'] + body);
    assert(all.skip(1) =~= text::lines_v(body));
}

} // verus!
