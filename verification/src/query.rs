//! The filter-query builder: it turns an optional-field filter into a
//! parameterized query against the log store.
//!
//! The emitted text holds one `field = ?` equality for each present
//! field, joined by `AND` in the fixed order time, host, severity,
//! facility, syslog_tag, source, and no predicate at all when no field is
//! present.  Values never reach the text: they travel as bound
//! parameters, which is what keeps user-influenced strings out of the
//! query.

use vstd::prelude::*;

use crate::entities::LogEntryFilter;
use vstd::string::StringExecFns;

verus! {

/// A value bound to one placeholder: an instant or a text.
#[derive(Debug, Clone)]
pub enum QueryParam {
    Instant(i64),
    Text(String),
}

/// What a bound parameter holds.
pub enum ParamModel {
    Instant(i64),
    Text(Seq<char>),
}

/// The model of one bound parameter.
pub open spec fn param_model(p: QueryParam) -> ParamModel {
    match p {
        QueryParam::Instant(t) => ParamModel::Instant(t),
        QueryParam::Text(s) => ParamModel::Text(s@),
    }
}

/// A parameterized query: the text with placeholders, and the values to
/// bind, in placeholder order.
#[derive(Debug, Clone)]
pub struct SqlQuery {
    pub text: String,
    pub params: Vec<QueryParam>,
}

/// The column names of the present fields, in the fixed order.
pub open spec fn names_of(f: LogEntryFilter) -> Seq<Seq<char>> {
    (if f.time is Some {
        seq!["time"@]
    } else {
        Seq::empty()
    }) + (if f.host is Some {
        seq!["host"@]
    } else {
        Seq::empty()
    }) + (if f.severity is Some {
        seq!["severity"@]
    } else {
        Seq::empty()
    }) + (if f.facility is Some {
        seq!["facility"@]
    } else {
        Seq::empty()
    }) + (if f.syslog_tag is Some {
        seq!["syslog_tag"@]
    } else {
        Seq::empty()
    }) + (if f.source is Some {
        seq!["source"@]
    } else {
        Seq::empty()
    })
}

/// The values of the present fields, in the same fixed order.
pub open spec fn spec_params(f: LogEntryFilter) -> Seq<ParamModel> {
    (match f.time {
        Some(t) => seq![ParamModel::Instant(t)],
        None => Seq::empty(),
    }) + (match f.host {
        Some(h) => seq![ParamModel::Text(h@)],
        None => Seq::empty(),
    }) + (match f.severity {
        Some(s) => seq![ParamModel::Text(s@)],
        None => Seq::empty(),
    }) + (match f.facility {
        Some(s) => seq![ParamModel::Text(s@)],
        None => Seq::empty(),
    }) + (match f.syslog_tag {
        Some(s) => seq![ParamModel::Text(s@)],
        None => Seq::empty(),
    }) + (match f.source {
        Some(s) => seq![ParamModel::Text(s@)],
        None => Seq::empty(),
    })
}

/// The conjunction of equality predicates from the `i`-th name on.
pub open spec fn where_from(names: Seq<Seq<char>>, i: int) -> Seq<char>
    decreases names.len() - i,
{
    if i < 0 || i >= names.len() {
        Seq::empty()
    } else if i == names.len() - 1 {
        names[i] + " = ?"@
    } else {
        names[i] + " = ?"@ + " AND "@ + where_from(names, i + 1)
    }
}

/// The whole query text for a filter: no predicate when no field is
/// present, else the conjunction of its equality predicates.
pub open spec fn spec_sql(f: LogEntryFilter) -> Seq<char> {
    if names_of(f).len() == 0 {
        "SELECT * FROM logs"@
    } else {
        "SELECT * FROM logs WHERE "@ + where_from(names_of(f), 0)
    }
}

/// Builds the parameterized query for one filter.
pub struct LogEntryFilterQueryBuilder {
    pub filter: LogEntryFilter,
}

impl LogEntryFilterQueryBuilder {
    /// A builder for the given filter.
    pub fn new(filter: LogEntryFilter) -> (r: LogEntryFilterQueryBuilder)
        ensures
            r.filter == filter,
    {
        LogEntryFilterQueryBuilder { filter }
    }

    /// The query for the filter: its text is `spec_sql` of the filter and
    /// its bound values are `spec_params` of the filter — the values
    /// themselves never stand in the text.
    #[verifier::rlimit(50)]
    pub fn to_sql_query(&self) -> (r: SqlQuery)
        ensures
            r.text@ == spec_sql(self.filter),
            r.params@.map_values(|p: QueryParam| param_model(p)) == spec_params(self.filter),
    {
        let ghost f = self.filter;
        let mut names: Vec<String> = Vec::new();
        let mut params: Vec<QueryParam> = Vec::new();
        match &self.filter.time {
            Some(t) => {
                names.push(String::from_str("time"));
                params.push(QueryParam::Instant(*t));
            },
            None => {},
        }
        proof {
            assert(names@.map_values(|n: String| n@) =~= (if f.time is Some {
                seq!["time"@]
            } else {
                Seq::<Seq<char>>::empty()
            }));
            assert(params@.map_values(|p: QueryParam| param_model(p)) =~= (match f.time {
                Some(t) => seq![ParamModel::Instant(t)],
                None => Seq::<ParamModel>::empty(),
            }));
        }
        let ghost nm1 = names@.map_values(|n: String| n@);
        let ghost pm1 = params@.map_values(|p: QueryParam| param_model(p));
        match &self.filter.host {
            Some(h) => {
                names.push(String::from_str("host"));
                params.push(QueryParam::Text(h.clone()));
            },
            None => {},
        }
        proof {
            assert(names@.map_values(|n: String| n@) =~= nm1 + (if f.host is Some {
                seq!["host"@]
            } else {
                Seq::<Seq<char>>::empty()
            }));
            assert(params@.map_values(|p: QueryParam| param_model(p)) =~= pm1 + (match f.host {
                Some(h) => seq![ParamModel::Text(h@)],
                None => Seq::<ParamModel>::empty(),
            }));
        }
        let ghost nm2 = names@.map_values(|n: String| n@);
        let ghost pm2 = params@.map_values(|p: QueryParam| param_model(p));
        match &self.filter.severity {
            Some(s) => {
                names.push(String::from_str("severity"));
                params.push(QueryParam::Text(s.clone()));
            },
            None => {},
        }
        proof {
            assert(names@.map_values(|n: String| n@) =~= nm2 + (if f.severity is Some {
                seq!["severity"@]
            } else {
                Seq::<Seq<char>>::empty()
            }));
            assert(params@.map_values(|p: QueryParam| param_model(p)) =~= pm2 + (match f.severity {
                Some(v) => seq![ParamModel::Text(v@)],
                None => Seq::<ParamModel>::empty(),
            }));
        }
        let ghost nm3 = names@.map_values(|n: String| n@);
        let ghost pm3 = params@.map_values(|p: QueryParam| param_model(p));
        match &self.filter.facility {
            Some(s) => {
                names.push(String::from_str("facility"));
                params.push(QueryParam::Text(s.clone()));
            },
            None => {},
        }
        proof {
            assert(names@.map_values(|n: String| n@) =~= nm3 + (if f.facility is Some {
                seq!["facility"@]
            } else {
                Seq::<Seq<char>>::empty()
            }));
            assert(params@.map_values(|p: QueryParam| param_model(p)) =~= pm3 + (match f.facility {
                Some(v) => seq![ParamModel::Text(v@)],
                None => Seq::<ParamModel>::empty(),
            }));
        }
        let ghost nm4 = names@.map_values(|n: String| n@);
        let ghost pm4 = params@.map_values(|p: QueryParam| param_model(p));
        match &self.filter.syslog_tag {
            Some(s) => {
                names.push(String::from_str("syslog_tag"));
                params.push(QueryParam::Text(s.clone()));
            },
            None => {},
        }
        proof {
            assert(names@.map_values(|n: String| n@) =~= nm4 + (if f.syslog_tag is Some {
                seq!["syslog_tag"@]
            } else {
                Seq::<Seq<char>>::empty()
            }));
            assert(params@.map_values(|p: QueryParam| param_model(p)) =~= pm4 + (match f.syslog_tag {
                Some(v) => seq![ParamModel::Text(v@)],
                None => Seq::<ParamModel>::empty(),
            }));
        }
        let ghost nm5 = names@.map_values(|n: String| n@);
        let ghost pm5 = params@.map_values(|p: QueryParam| param_model(p));
        match &self.filter.source {
            Some(s) => {
                names.push(String::from_str("source"));
                params.push(QueryParam::Text(s.clone()));
            },
            None => {},
        }
        proof {
            assert(names@.map_values(|n: String| n@) =~= nm5 + (if f.source is Some {
                seq!["source"@]
            } else {
                Seq::<Seq<char>>::empty()
            }));
            assert(params@.map_values(|p: QueryParam| param_model(p)) =~= pm5 + (match f.source {
                Some(v) => seq![ParamModel::Text(v@)],
                None => Seq::<ParamModel>::empty(),
            }));
            assert(names@.map_values(|n: String| n@) =~= names_of(f));
            assert(params@.map_values(|p: QueryParam| param_model(p)) =~= spec_params(f));
        }
        let ghost nm = names_of(f);
        let mut text = String::from_str("SELECT * FROM logs");
        if names.len() > 0 {
            text.append(" WHERE ");
            proof {
                reveal_strlit("SELECT * FROM logs");
                reveal_strlit(" WHERE ");
                reveal_strlit("SELECT * FROM logs WHERE ");
                assert(text@ =~= "SELECT * FROM logs WHERE "@);
            }
            let mut i: usize = 0;
            while i < names.len()
                invariant
                    0 <= i <= names@.len(),
                    nm == names@.map_values(|n: String| n@),
                    i < names@.len() ==> text@ + where_from(nm, i as int) == "SELECT * FROM logs WHERE "@
                        + where_from(nm, 0),
                    i == names@.len() ==> text@ == "SELECT * FROM logs WHERE "@ + where_from(
                        nm,
                        0,
                    ),
                decreases names@.len() - i,
            {
                let ghost before = text@;
                text.append(names[i].as_str());
                text.append(" = ?");
                if i + 1 < names.len() {
                    text.append(" AND ");
                    proof {
                        assert(where_from(nm, i as int) == nm[i as int] + " = ?"@ + " AND "@
                            + where_from(nm, i + 1));
                        assert(text@ =~= before + nm[i as int] + " = ?"@ + " AND "@);
                        assert(text@ + where_from(nm, i + 1) =~= before + where_from(
                            nm,
                            i as int,
                        ));
                    }
                } else {
                    proof {
                        assert(where_from(nm, i as int) == nm[i as int] + " = ?"@);
                        assert(text@ =~= before + where_from(nm, i as int));
                        assert(where_from(nm, i + 1) == Seq::<char>::empty());
                        assert(text@ =~= before + where_from(nm, i as int) + where_from(
                            nm,
                            i + 1,
                        ));
                    }
                }
                i = i + 1;
            }
        }
        SqlQuery { text, params }
    }
}

/// Law: a filter with no field present yields a query with no predicate
/// and no bound value.
pub proof fn lemma_empty_filter_no_predicate(f: LogEntryFilter)
    requires
        f.time is None,
        f.host is None,
        f.severity is None,
        f.facility is None,
        f.syslog_tag is None,
        f.source is None,
    ensures
        spec_sql(f) == "SELECT * FROM logs"@,
        spec_params(f).len() == 0,
{
    assert(names_of(f).len() == 0);
    assert(spec_params(f).len() == 0);
}

/// Law: a filter with all six fields present yields a conjunction of
/// exactly six equality predicates, in the fixed field order, with one
/// placeholder each and the six values bound in that order.
#[verifier::rlimit(100)]
pub proof fn lemma_full_filter_conjunction(f: LogEntryFilter)
    requires
        f.time is Some,
        f.host is Some,
        f.severity is Some,
        f.facility is Some,
        f.syslog_tag is Some,
        f.source is Some,
    ensures
        spec_sql(f) == "SELECT * FROM logs WHERE "@ + "time"@ + " = ?"@ + " AND "@ + "host"@
            + " = ?"@ + " AND "@ + "severity"@ + " = ?"@ + " AND "@ + "facility"@ + " = ?"@
            + " AND "@ + "syslog_tag"@ + " = ?"@ + " AND "@ + "source"@ + " = ?"@,
        spec_params(f) == seq![
            ParamModel::Instant(f.time->Some_0),
            ParamModel::Text(f.host->Some_0@),
            ParamModel::Text(f.severity->Some_0@),
            ParamModel::Text(f.facility->Some_0@),
            ParamModel::Text(f.syslog_tag->Some_0@),
            ParamModel::Text(f.source->Some_0@),
        ],
{
    let nm = names_of(f);
    assert(nm =~= seq!["time"@, "host"@, "severity"@, "facility"@, "syslog_tag"@, "source"@]);
    assert(spec_params(f) =~= seq![
        ParamModel::Instant(f.time->Some_0),
        ParamModel::Text(f.host->Some_0@),
        ParamModel::Text(f.severity->Some_0@),
        ParamModel::Text(f.facility->Some_0@),
        ParamModel::Text(f.syslog_tag->Some_0@),
        ParamModel::Text(f.source->Some_0@),
    ]);
    assert(where_from(nm, 5) == "source"@ + " = ?"@) by {
        reveal_with_fuel(where_from, 2);
    }
    assert(where_from(nm, 4) == "syslog_tag"@ + " = ?"@ + " AND "@ + where_from(nm, 5)) by {
        reveal_with_fuel(where_from, 2);
    }
    assert(where_from(nm, 3) == "facility"@ + " = ?"@ + " AND "@ + where_from(nm, 4)) by {
        reveal_with_fuel(where_from, 2);
    }
    assert(where_from(nm, 2) == "severity"@ + " = ?"@ + " AND "@ + where_from(nm, 3)) by {
        reveal_with_fuel(where_from, 2);
    }
    assert(where_from(nm, 1) == "host"@ + " = ?"@ + " AND "@ + where_from(nm, 2)) by {
        reveal_with_fuel(where_from, 2);
    }
    assert(where_from(nm, 0) == "time"@ + " = ?"@ + " AND "@ + where_from(nm, 1)) by {
        reveal_with_fuel(where_from, 2);
    }
    assert(spec_sql(f) =~= "SELECT * FROM logs WHERE "@ + "time"@ + " = ?"@ + " AND "@ + "host"@
        + " = ?"@ + " AND "@ + "severity"@ + " = ?"@ + " AND "@ + "facility"@ + " = ?"@ + " AND "@
        + "syslog_tag"@ + " = ?"@ + " AND "@ + "source"@ + " = ?"@);
}

/// Law: the query text depends only on which fields are present, never
/// on their values — a value can only reach the bound parameters.
pub proof fn lemma_text_value_independent(f1: LogEntryFilter, f2: LogEntryFilter)
    requires
        f1.time is Some <==> f2.time is Some,
        f1.host is Some <==> f2.host is Some,
        f1.severity is Some <==> f2.severity is Some,
        f1.facility is Some <==> f2.facility is Some,
        f1.syslog_tag is Some <==> f2.syslog_tag is Some,
        f1.source is Some <==> f2.source is Some,
    ensures
        spec_sql(f1) == spec_sql(f2),
{
    assert(names_of(f1) =~= names_of(f2));
}

} // verus!
