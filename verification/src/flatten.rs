use vstd::prelude::*;
use vstd::string::StringExecFns;

use crate::records::ValueWithLocation;
use crate::records::RecordV;
use crate::records::recs_view;
use crate::records::clone_path;

verus! {

/// One parse event of a document, carrying what the flattener reads: the
/// event kind, scalar text, and the source line the event starts on.
pub enum YamlEvent {
    MappingStart,
    MappingEnd,
    SequenceStart { line: usize },
    SequenceEnd,
    Scalar { value: String, line: usize },
    Other,
}

/// Mathematical view of a parse event.
pub enum EventV {
    MappingStart,
    MappingEnd,
    SequenceStart { line: nat },
    SequenceEnd,
    Scalar { value: Seq<char>, line: nat },
    Other,
}

impl View for YamlEvent {
    type V = EventV;

    open spec fn view(&self) -> EventV {
        match self {
            YamlEvent::MappingStart => EventV::MappingStart,
            YamlEvent::MappingEnd => EventV::MappingEnd,
            YamlEvent::SequenceStart { line } => EventV::SequenceStart { line: *line as nat },
            YamlEvent::SequenceEnd => EventV::SequenceEnd,
            YamlEvent::Scalar { value, line } => EventV::Scalar {
                value: value@,
                line: *line as nat,
            },
            YamlEvent::Other => EventV::Other,
        }
    }
}

/// The views of a whole event stream, in order.
pub open spec fn events_view(evs: Seq<YamlEvent>) -> Seq<EventV> {
    evs.map_values(|e: YamlEvent| e@)
}

/// Where the flattener stands in the document: at the root, at a mapping
/// awaiting a key, holding a key and awaiting its value, or inside a
/// sequence.
pub enum ParseState {
    Idle,
    ExpectingKey,
    ExpectingValue(String),
    InSequence,
}

/// Mathematical view of the flattener's position.
pub enum StateV {
    Idle,
    ExpectingKey,
    ExpectingValue(Seq<char>),
    InSequence,
}

impl View for ParseState {
    type V = StateV;

    open spec fn view(&self) -> StateV {
        match self {
            ParseState::Idle => StateV::Idle,
            ParseState::ExpectingKey => StateV::ExpectingKey,
            ParseState::ExpectingValue(key) => StateV::ExpectingValue(key@),
            ParseState::InSequence => StateV::InSequence,
        }
    }
}

/// Mathematical view of the whole flattener state.
#[verifier::ext_equal]
pub struct CollectorV {
    pub values: Seq<RecordV>,
    pub path: Seq<Seq<char>>,
    pub file: Seq<char>,
    pub state: StateV,
    pub mapping_depth: nat,
    pub seq_items: Seq<Seq<char>>,
    pub seq_start_line: nat,
    pub sequence_depth: nat,
}

/// A scalar quoted as a sequence item.
pub open spec fn quoted(v: Seq<char>) -> Seq<char> {
    seq!['"'] + v + seq!['"']
}

/// Sequence items joined with a comma and a space.
pub open spec fn joined(items: Seq<Seq<char>>) -> Seq<char>
    decreases items.len(),
{
    if items.len() == 0 {
        Seq::empty()
    } else if items.len() == 1 {
        items[0]
    } else {
        joined(items.drop_last()) + seq![',', ' '] + items.last()
    }
}

/// The serialized form of a whole sequence: its quoted items, joined, in
/// brackets.
pub open spec fn bracketed(items: Seq<Seq<char>>) -> Seq<char> {
    seq!['['] + joined(items) + seq![']']
}

/// The flattener's starting state for one document.
pub open spec fn init_collector(file: Seq<char>) -> CollectorV {
    CollectorV {
        values: Seq::empty(),
        path: Seq::empty(),
        file: file,
        state: StateV::Idle,
        mapping_depth: 0,
        seq_items: Seq::empty(),
        seq_start_line: 0,
        sequence_depth: 0,
    }
}

/// The flattener's transition on one incoming event.
pub open spec fn step(st: CollectorV, ev: EventV) -> CollectorV {
    match ev {
        EventV::MappingStart => {
            let path1 = match st.state {
                StateV::ExpectingValue(key) => st.path.push(key),
                _ => st.path,
            };
            let state1 = if st.sequence_depth == 0 {
                StateV::ExpectingKey
            } else {
                st.state
            };
            CollectorV { path: path1, state: state1, mapping_depth: st.mapping_depth + 1, ..st }
        },
        EventV::MappingEnd => {
            let depth1 = if st.mapping_depth > 0 {
                (st.mapping_depth - 1) as nat
            } else {
                0
            };
            let path1 = if st.path.len() > 0 && st.path.len() >= depth1 && st.sequence_depth == 0 {
                st.path.drop_last()
            } else {
                st.path
            };
            let state1 = if st.sequence_depth == 0 {
                if depth1 > 0 {
                    StateV::ExpectingKey
                } else {
                    StateV::Idle
                }
            } else {
                st.state
            };
            CollectorV { path: path1, state: state1, mapping_depth: depth1, ..st }
        },
        EventV::SequenceStart { line } => {
            match st.state {
                StateV::ExpectingValue(key) => CollectorV {
                    path: st.path.push(key),
                    seq_items: Seq::empty(),
                    seq_start_line: line,
                    state: StateV::InSequence,
                    sequence_depth: st.sequence_depth + 1,
                    ..st
                },
                _ => CollectorV {
                    state: StateV::InSequence,
                    sequence_depth: st.sequence_depth + 1,
                    ..st
                },
            }
        },
        EventV::SequenceEnd => {
            let depth1 = if st.sequence_depth > 0 {
                (st.sequence_depth - 1) as nat
            } else {
                0
            };
            let emit = st.path.len() > 0 && depth1 == 0;
            let values1 = if emit {
                st.values.push(RecordV {
                    path: st.path,
                    value: bracketed(st.seq_items),
                    file: st.file,
                    line: st.seq_start_line,
                })
            } else {
                st.values
            };
            let path1 = if emit {
                st.path.drop_last()
            } else {
                st.path
            };
            let state1 = if st.mapping_depth > 0 {
                StateV::ExpectingKey
            } else {
                StateV::Idle
            };
            CollectorV {
                values: values1,
                path: path1,
                seq_items: Seq::empty(),
                state: state1,
                sequence_depth: depth1,
                ..st
            }
        },
        EventV::Scalar { value, line } => {
            match st.state {
                StateV::ExpectingKey => CollectorV { state: StateV::ExpectingValue(value), ..st },
                StateV::ExpectingValue(key) => {
                    let values1 = if st.sequence_depth == 0 {
                        st.values.push(RecordV {
                            path: st.path.push(key),
                            value: value,
                            file: st.file,
                            line: line,
                        })
                    } else {
                        st.values
                    };
                    CollectorV { values: values1, state: StateV::ExpectingKey, ..st }
                },
                StateV::InSequence => CollectorV {
                    seq_items: st.seq_items.push(quoted(value)),
                    ..st
                },
                StateV::Idle => CollectorV {
                    values: st.values.push(RecordV {
                        path: Seq::empty(),
                        value: value,
                        file: st.file,
                        line: line,
                    }),
                    ..st
                },
            }
        },
        EventV::Other => st,
    }
}

/// The flattener's state after a whole event stream.
pub open spec fn run(st: CollectorV, events: Seq<EventV>) -> CollectorV
    decreases events.len(),
{
    if events.len() == 0 {
        st
    } else {
        step(run(st, events.drop_last()), events.last())
    }
}

/// The ordered record list that flattening a document's events produces.
pub open spec fn flatten_spec(file: Seq<char>, events: Seq<EventV>) -> Seq<RecordV> {
    run(init_collector(file), events).values
}

/// A step changes each nesting counter by at most one, so a run of `n`
/// events cannot raise a counter by more than `n`.
pub proof fn lemma_run_depth_bounds(st: CollectorV, events: Seq<EventV>)
    ensures
        run(st, events).mapping_depth <= st.mapping_depth + events.len(),
        run(st, events).sequence_depth <= st.sequence_depth + events.len(),
    decreases events.len(),
{
    if events.len() == 0 {
    } else {
        lemma_run_depth_bounds(st, events.drop_last());
    }
}

/// A record with its source-file attribution erased.
pub open spec fn erase_rec_file(r: RecordV) -> RecordV {
    RecordV { file: Seq::empty(), ..r }
}

/// A flattener state with all source-file attribution erased.
pub open spec fn erase_file(st: CollectorV) -> CollectorV {
    CollectorV {
        file: Seq::empty(),
        values: st.values.map_values(|r: RecordV| erase_rec_file(r)),
        ..st
    }
}

/// Erasing file attribution commutes with appending one record.
proof fn lemma_erase_map_push(s: Seq<RecordV>, r: RecordV)
    ensures
        s.push(r).map_values(|x: RecordV| erase_rec_file(x)) =~= s.map_values(
            |x: RecordV| erase_rec_file(x),
        ).push(erase_rec_file(r)),
{
}

/// One transition reads the file name only to attribute emitted records, so
/// it commutes with erasing the attribution.
proof fn lemma_step_file_independent(st: CollectorV, ev: EventV)
    ensures
        erase_file(step(st, ev)) == step(erase_file(st), ev),
{
    match ev {
        EventV::SequenceEnd => {
            let depth1 = if st.sequence_depth > 0 {
                (st.sequence_depth - 1) as nat
            } else {
                0
            };
            if st.path.len() > 0 && depth1 == 0 {
                lemma_erase_map_push(st.values, RecordV {
                    path: st.path,
                    value: bracketed(st.seq_items),
                    file: st.file,
                    line: st.seq_start_line,
                });
            }
            assert(erase_file(step(st, ev)) =~= step(erase_file(st), ev));
        },
        EventV::Scalar { value, line } => {
            match st.state {
                StateV::ExpectingValue(key) => {
                    if st.sequence_depth == 0 {
                        lemma_erase_map_push(st.values, RecordV {
                            path: st.path.push(key),
                            value: value,
                            file: st.file,
                            line: line,
                        });
                    }
                },
                StateV::Idle => {
                    lemma_erase_map_push(st.values, RecordV {
                        path: Seq::empty(),
                        value: value,
                        file: st.file,
                        line: line,
                    });
                },
                _ => {},
            }
            assert(erase_file(step(st, ev)) =~= step(erase_file(st), ev));
        },
        _ => {
            assert(erase_file(step(st, ev)) =~= step(erase_file(st), ev));
        },
    }
}

/// Two runs over the same events from states equal up to file attribution
/// stay equal up to file attribution.
proof fn lemma_run_file_independent(st1: CollectorV, st2: CollectorV, events: Seq<EventV>)
    requires
        erase_file(st1) == erase_file(st2),
    ensures
        erase_file(run(st1, events)) == erase_file(run(st2, events)),
    decreases events.len(),
{
    if events.len() == 0 {
    } else {
        lemma_run_file_independent(st1, st2, events.drop_last());
        lemma_step_file_independent(run(st1, events.drop_last()), events.last());
        lemma_step_file_independent(run(st2, events.drop_last()), events.last());
    }
}

/// Flattening is deterministic and file-independent: two runs over the same
/// events produce the same records — the same paths, serialized values, and
/// lines, in the same order — the source file name filling only each
/// record's file field.
pub proof fn lemma_flatten_file_independent(f1: Seq<char>, f2: Seq<char>, events: Seq<EventV>)
    ensures
        flatten_spec(f1, events).len() == flatten_spec(f2, events).len(),
        forall|i: int|
            0 <= i < flatten_spec(f1, events).len() ==> erase_rec_file(flatten_spec(f1, events)[i])
                == erase_rec_file(flatten_spec(f2, events)[i]),
{
    assert(erase_file(init_collector(f1)) =~= erase_file(init_collector(f2)));
    lemma_run_file_independent(init_collector(f1), init_collector(f2), events);
    let v1 = run(init_collector(f1), events).values;
    let v2 = run(init_collector(f2), events).values;
    assert(v1.map_values(|r: RecordV| erase_rec_file(r)) == v2.map_values(
        |r: RecordV| erase_rec_file(r),
    ));
    assert forall|i: int| 0 <= i < v1.len() implies erase_rec_file(v1[i]) == erase_rec_file(
        v2[i],
    ) by {
        assert(v1.map_values(|r: RecordV| erase_rec_file(r))[i] == erase_rec_file(v1[i]));
        assert(v2.map_values(|r: RecordV| erase_rec_file(r))[i] == erase_rec_file(v2[i]));
    }
}

/// The stateful flattener: it consumes one document's events in order and
/// collects the ordered `(path, value, line)` records.
pub struct YamlValueCollector {
    pub values: Vec<(Vec<String>, ValueWithLocation)>,
    pub current_path: Vec<String>,
    pub current_file: String,
    pub state: ParseState,
    pub mapping_depth: usize,
    pub current_sequence_items: Vec<String>,
    pub sequence_start_line: usize,
    pub sequence_depth: usize,
}

impl View for YamlValueCollector {
    type V = CollectorV;

    open spec fn view(&self) -> CollectorV {
        CollectorV {
            values: recs_view(self.values@),
            path: self.current_path.deep_view(),
            file: self.current_file@,
            state: self.state@,
            mapping_depth: self.mapping_depth as nat,
            seq_items: self.current_sequence_items.deep_view(),
            seq_start_line: self.sequence_start_line as nat,
            sequence_depth: self.sequence_depth as nat,
        }
    }
}

/// Quotes one scalar as a sequence item.
pub fn quote_item(v: &str) -> (r: String)
    ensures
        r@ == quoted(v@),
{
    let mut r = String::from_str("\"");
    r.append(v);
    r.append("\"");
    proof {
        reveal_strlit("\"");
        assert(r@ =~= quoted(v@));
    }
    r
}

/// Serializes the collected items of one sequence as the bracketed,
/// comma-joined list.
pub fn join_items(items: &Vec<String>) -> (r: String)
    ensures
        r@ == bracketed(items.deep_view()),
{
    let mut r = String::from_str("[");
    proof {
        reveal_strlit("[");
        assert(r@ =~= seq!['['] + joined(items.deep_view().take(0)));
    }
    let mut i: usize = 0;
    while i < items.len()
        invariant
            i <= items.len(),
            r@ == seq!['['] + joined(items.deep_view().take(i as int)),
        decreases items.len() - i,
    {
        if i > 0 {
            r.append(", ");
        }
        r.append(items[i].as_str());
        proof {
            reveal_strlit(", ");
            assert(items.deep_view().take(i as int + 1).drop_last() =~= items.deep_view().take(
                i as int));
            assert(items.deep_view().take(i as int + 1).last() == items.deep_view()[i as int]);
            assert(r@ =~= seq!['['] + joined(items.deep_view().take(i as int + 1)));
        }
        i = i + 1;
    }
    r.append("]");
    proof {
        reveal_strlit("]");
        assert(items.deep_view().take(items@.len() as int) =~= items.deep_view());
        assert(r@ =~= bracketed(items.deep_view()));
    }
    r
}

impl YamlValueCollector {
    /// A fresh flattener for one document, with nothing collected yet.
    pub fn new(file: String) -> (r: Self)
        ensures
            r@ == init_collector(file@),
    {
        let r = YamlValueCollector {
            values: Vec::new(),
            current_path: Vec::new(),
            current_file: file,
            state: ParseState::Idle,
            mapping_depth: 0,
            current_sequence_items: Vec::new(),
            sequence_start_line: 0,
            sequence_depth: 0,
        };
        proof {
            assert(recs_view(r.values@) =~= Seq::<RecordV>::empty());
            assert(r.current_path.deep_view() =~= Seq::<Seq<char>>::empty());
            assert(r.current_sequence_items.deep_view() =~= Seq::<Seq<char>>::empty());
            assert(r@ =~= init_collector(r.current_file@));
        }
        r
    }

    /// Feeds one event to the flattener; the new state is exactly one
    /// transition of the specification machine.
    pub fn on_event(&mut self, event: &YamlEvent)
        requires
            old(self).mapping_depth < usize::MAX,
            old(self).sequence_depth < usize::MAX,
        ensures
            final(self)@ == step(old(self)@, event@),
    {
        match event {
            YamlEvent::MappingStart => {
                if let ParseState::ExpectingValue(key) = &self.state {
                    let k = key.clone();
                    let ghost path_pre = self.current_path.deep_view();
                    self.current_path.push(k);
                    proof {
                        assert(self.current_path.deep_view() =~= path_pre.push(key@));
                    }
                }
                self.mapping_depth = self.mapping_depth + 1;
                if self.sequence_depth == 0 {
                    self.state = ParseState::ExpectingKey;
                }
                proof {
                    assert(self@ =~= step(old(self)@, event@));
                }
            },
            YamlEvent::MappingEnd => {
                if self.mapping_depth > 0 {
                    self.mapping_depth = self.mapping_depth - 1;
                }
                if self.current_path.len() > 0 && self.current_path.len() >= self.mapping_depth
                    && self.sequence_depth == 0 {
                    let ghost path_pre = self.current_path.deep_view();
                    let _ = self.current_path.pop();
                    proof {
                        assert(self.current_path.deep_view() =~= path_pre.drop_last());
                    }
                }
                if self.sequence_depth == 0 {
                    self.state = if self.mapping_depth > 0 {
                        ParseState::ExpectingKey
                    } else {
                        ParseState::Idle
                    };
                }
                proof {
                    assert(self@ =~= step(old(self)@, event@));
                }
            },
            YamlEvent::SequenceStart { line } => {
                self.sequence_depth = self.sequence_depth + 1;
                if let ParseState::ExpectingValue(key) = &self.state {
                    let k = key.clone();
                    let ghost path_pre = self.current_path.deep_view();
                    self.current_path.push(k);
                    self.current_sequence_items = Vec::new();
                    self.sequence_start_line = *line;
                    proof {
                        assert(self.current_path.deep_view() =~= path_pre.push(key@));
                        assert(self.current_sequence_items.deep_view() =~= Seq::<Seq<char>>::empty());
                    }
                }
                self.state = ParseState::InSequence;
                proof {
                    assert(self@ =~= step(old(self)@, event@));
                }
            },
            YamlEvent::SequenceEnd => {
                if self.sequence_depth > 0 {
                    self.sequence_depth = self.sequence_depth - 1;
                }
                if self.current_path.len() > 0 && self.sequence_depth == 0 {
                    let sequence_value = join_items(&self.current_sequence_items);
                    let path = clone_path(&self.current_path);
                    let ghost vals_pre = recs_view(self.values@);
                    let located = ValueWithLocation {
                        value: sequence_value,
                        file: self.current_file.clone(),
                        line: self.sequence_start_line,
                    };
                    self.values.push((path, located));
                    proof {
                        assert(recs_view(self.values@) =~= vals_pre.push(RecordV {
                            path: old(self).current_path.deep_view(),
                            value: bracketed(old(self).current_sequence_items.deep_view()),
                            file: old(self).current_file@,
                            line: old(self).sequence_start_line as nat,
                        }));
                    }
                    let ghost path_pre = self.current_path.deep_view();
                    let _ = self.current_path.pop();
                    proof {
                        assert(self.current_path.deep_view() =~= path_pre.drop_last());
                    }
                }
                self.current_sequence_items = Vec::new();
                self.state = if self.mapping_depth > 0 {
                    ParseState::ExpectingKey
                } else {
                    ParseState::Idle
                };
                proof {
                    assert(self.current_sequence_items.deep_view() =~= Seq::<Seq<char>>::empty());
                    assert(self@ =~= step(old(self)@, event@));
                }
            },
            YamlEvent::Scalar { value, line } => {
                match &self.state {
                    ParseState::ExpectingKey => {
                        self.state = ParseState::ExpectingValue(value.clone());
                    },
                    ParseState::ExpectingValue(key) => {
                        let k = key.clone();
                        if self.sequence_depth == 0 {
                            let mut value_path = clone_path(&self.current_path);
                            let ghost path_pre = self.current_path.deep_view();
                            value_path.push(k);
                            let ghost vals_pre = recs_view(self.values@);
                            let located = ValueWithLocation {
                                value: value.clone(),
                                file: self.current_file.clone(),
                                line: *line,
                            };
                            self.values.push((value_path, located));
                            proof {
                                assert(value_path.deep_view() =~= path_pre.push(k@));
                                assert(recs_view(self.values@) =~= vals_pre.push(RecordV {
                                    path: path_pre.push(k@),
                                    value: value@,
                                    file: old(self).current_file@,
                                    line: *line as nat,
                                }));
                            }
                        }
                        self.state = ParseState::ExpectingKey;
                    },
                    ParseState::InSequence => {
                        let q = quote_item(value.as_str());
                        let ghost items_pre = self.current_sequence_items.deep_view();
                        self.current_sequence_items.push(q);
                        proof {
                            assert(self.current_sequence_items.deep_view() =~= items_pre.push(
                                quoted(value@)));
                        }
                    },
                    ParseState::Idle => {
                        let ghost vals_pre = recs_view(self.values@);
                        let located = ValueWithLocation {
                            value: value.clone(),
                            file: self.current_file.clone(),
                            line: *line,
                        };
                        let empty_path: Vec<String> = Vec::new();
                        proof {
                            assert(empty_path.deep_view() =~= Seq::<Seq<char>>::empty());
                        }
                        self.values.push((empty_path, located));
                        proof {
                            assert(recs_view(self.values@) =~= vals_pre.push(RecordV {
                                path: Seq::<Seq<char>>::empty(),
                                value: value@,
                                file: old(self).current_file@,
                                line: *line as nat,
                            }));
                        }
                    },
                }
                proof {
                    assert(self@ =~= step(old(self)@, event@));
                }
            },
            YamlEvent::Other => {
                proof {
                    assert(self@ =~= step(old(self)@, event@));
                }
            },
        }
    }
}

/// Runs one document's events through a fresh flattener, producing that
/// document's ordered record list.
pub fn flatten_events(file: String, events: &Vec<YamlEvent>) -> (r: Vec<(Vec<String>, ValueWithLocation)>)
    ensures
        recs_view(r@) == flatten_spec(file@, events_view(events@)),
{
    let ghost fview = file@;
    let ghost evs = events_view(events@);
    let mut collector = YamlValueCollector::new(file);
    let mut i: usize = 0;
    while i < events.len()
        invariant
            i <= events.len(),
            evs == events_view(events@),
            collector@ == run(init_collector(fview), evs.take(i as int)),
        decreases events.len() - i,
    {
        proof {
            lemma_run_depth_bounds(init_collector(fview), evs.take(i as int));
            assert(evs.take(i as int + 1).drop_last() =~= evs.take(i as int));
            assert(evs.take(i as int + 1).last() == evs[i as int]);
        }
        collector.on_event(&events[i]);
        i = i + 1;
    }
    proof {
        assert(evs.take(events@.len() as int) =~= evs);
    }
    collector.values
}

} // verus!
