//! Reading the history back: how a request for recent records is put to a
//! table that speaks SQL.

use vstd::prelude::*;
use vstd::string::*;
use crate::text::{decimal_text, push_decimal};

verus! {

/// How many records a page holds where the request names no size.
pub const DEFAULT_PAGE: usize = 100;

/// How many records a page holds at most.
pub const LARGEST_PAGE: usize = 1000;

/// A request for recent records.
#[derive(Debug)]
pub struct LogQuery {
    pub limit: Option<usize>,
    pub offset: Option<usize>,
    pub facility: Option<u8>,
    pub severity: Option<u8>,
    /// A text to look for in message, host and application.
    pub search: Option<String>,
}

/// A statement with one value for each of its parameters, in order.
#[derive(Debug)]
pub struct QueryPlan {
    pub sql: String,
    pub binds: Vec<String>,
}

/// A plan as mathematics.
pub struct PlanView {
    pub sql: Seq<char>,
    pub binds: Seq<Seq<char>>,
}

impl View for QueryPlan {
    type V = PlanView;

    open spec fn view(&self) -> PlanView {
        PlanView { sql: self.sql@, binds: Seq::new(self.binds@.len(), |i: int| self.binds@[i]@) }
    }
}

/// The size of the page: what was asked for, 100 where nothing was, and never
/// more than 1000.
pub open spec fn page_size(limit: Option<usize>) -> usize {
    match limit {
        Some(n) => if n <= LARGEST_PAGE {
            n
        } else {
            LARGEST_PAGE
        },
        None => DEFAULT_PAGE,
    }
}

/// Where the page starts: what was asked for, or at the newest record.
pub open spec fn page_start(offset: Option<usize>) -> usize {
    match offset {
        Some(n) => n,
        None => 0,
    }
}

/// The pattern that finds `search` anywhere in a text.
pub open spec fn like_pattern(search: Seq<char>) -> Seq<char> {
    seq!['%'] + search + seq!['%']
}

/// The plan with one more condition on a number.
pub open spec fn with_number(p: PlanView, clause: Seq<char>, value: Option<u8>) -> PlanView {
    match value {
        Some(v) => PlanView { sql: p.sql + clause, binds: p.binds.push(decimal_text(v as nat)) },
        None => p,
    }
}

/// The plan with the condition that one of three columns holds the text.
pub open spec fn with_search(p: PlanView, search: Option<Seq<char>>) -> PlanView {
    match search {
        Some(s) => PlanView {
            sql: p.sql + " AND (message LIKE ? OR hostname LIKE ? OR app_name LIKE ?)"@,
            binds: p.binds.push(like_pattern(s)).push(like_pattern(s)).push(like_pattern(s)),
        },
        None => p,
    }
}

/// The plan with its order and its page.
pub open spec fn with_page(p: PlanView, limit: usize, offset: usize) -> PlanView {
    PlanView {
        sql: p.sql + " ORDER BY timestamp DESC"@ + " LIMIT ? OFFSET ?"@,
        binds: p.binds.push(decimal_text(limit as nat)).push(decimal_text(offset as nat)),
    }
}

/// The statement that selects every record.
pub open spec fn select_all() -> PlanView {
    PlanView {
        sql: "SELECT id, timestamp, facility, severity, hostname, app_name, proc_id, msg_id, message, raw_message, source_ip FROM syslog_messages WHERE 1=1"@,
        binds: Seq::empty(),
    }
}

/// The plan for a request: the conditions that it names, newest records first,
/// one page of them.
pub open spec fn plan_of(
    limit: Option<usize>,
    offset: Option<usize>,
    facility: Option<u8>,
    severity: Option<u8>,
    search: Option<Seq<char>>,
) -> PlanView {
    with_page(
        with_search(
            with_number(
                with_number(select_all(), " AND facility = ?"@, facility),
                " AND severity = ?"@,
                severity,
            ),
            search,
        ),
        page_size(limit),
        page_start(offset),
    )
}

fn number_text(n: u64) -> (t: String)
    ensures
        t@ == decimal_text(n as nat),
{
    let mut t = String::new();
    push_decimal(&mut t, n);
    assert(t@ =~= decimal_text(n as nat));
    t
}

fn add_number(plan: &mut QueryPlan, clause: &str, value: Option<u8>)
    ensures
        final(plan)@ == with_number(old(plan)@, clause@, value),
{
    match value {
        Some(v) => {
            plan.sql.append(clause);
            plan.binds.push(number_text(v as u64));
            assert(plan@.binds =~= old(plan)@.binds.push(decimal_text(v as nat)));
        },
        None => {
            assert(plan@.binds =~= old(plan)@.binds);
        },
    }
}

fn add_search(plan: &mut QueryPlan, search: &Option<String>)
    ensures
        final(plan)@ == with_search(old(plan)@, crate::message::text_view(*search)),
{
    match search {
        Some(s) => {
            proof {
                reveal_strlit("%");
            }
            let mut pattern = "%".to_owned();
            pattern.append(s.as_str());
            pattern.append("%");
            assert(pattern@ =~= like_pattern(s@));
            plan.sql.append(" AND (message LIKE ? OR hostname LIKE ? OR app_name LIKE ?)");
            plan.binds.push(pattern.clone());
            plan.binds.push(pattern.clone());
            plan.binds.push(pattern);
            assert(plan@.binds =~= old(plan)@.binds.push(like_pattern(s@)).push(
                like_pattern(s@),
            ).push(like_pattern(s@)));
        },
        None => {
            assert(plan@.binds =~= old(plan)@.binds);
        },
    }
}

impl LogQuery {
    /// The size of the page that the request asks for.
    pub fn page(&self) -> (n: usize)
        ensures
            n == page_size(self.limit),
            n <= LARGEST_PAGE,
    {
        match self.limit {
            Some(n) => if n <= LARGEST_PAGE {
                n
            } else {
                LARGEST_PAGE
            },
            None => DEFAULT_PAGE,
        }
    }

    /// The statement that answers the request, and the values of its
    /// parameters.
    pub fn plan(&self) -> (plan: QueryPlan)
        ensures
            plan@ == plan_of(
                self.limit,
                self.offset,
                self.facility,
                self.severity,
                crate::message::text_view(self.search),
            ),
    {
        let mut plan = QueryPlan {
            sql: "SELECT id, timestamp, facility, severity, hostname, app_name, proc_id, msg_id, message, raw_message, source_ip FROM syslog_messages WHERE 1=1".to_owned(),
            binds: Vec::new(),
        };
        assert(plan@.binds =~= select_all().binds);
        add_number(&mut plan, " AND facility = ?", self.facility);
        add_number(&mut plan, " AND severity = ?", self.severity);
        add_search(&mut plan, &self.search);
        let ghost before = plan@;
        let limit = self.page();
        let offset = match self.offset {
            Some(n) => n,
            None => 0,
        };
        plan.sql.append(" ORDER BY timestamp DESC");
        plan.sql.append(" LIMIT ? OFFSET ?");
        plan.binds.push(number_text(limit as u64));
        plan.binds.push(number_text(offset as u64));
        assert(plan@.binds =~= with_page(before, limit, offset).binds);
        plan
    }
}

} // verus!
