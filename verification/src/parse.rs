use vstd::prelude::*;

use crate::analyze::Override;
use crate::analyze::DuplicateKeyWarning;
use crate::analyze::pointless_spec;
use crate::analyze::warnings_spec;
use crate::analyze::ovs_view;
use crate::analyze::warns_view;
use crate::analyze::find_pointless_overrides_and_warnings;
use crate::flatten::YamlEvent;
use crate::flatten::EventV;
use crate::flatten::events_view;
use crate::flatten::flatten_spec;
use crate::flatten::flatten_events;
use crate::records::ValueWithLocation;
use crate::records::RecordV;
use crate::records::recs_view;
use crate::records::layers_view;

verus! {

/// A failed document parse: the reported location and message.
#[derive(Debug, Clone)]
pub struct ParseError {
    pub line: usize,
    pub col: usize,
    pub msg: String,
}

/// Declares saphyr_parser::Event, the parser's event type, as opaque.
#[verifier::external_type_specification]
#[verifier::external_body]
pub struct ExEvent<'input>(saphyr_parser::Event<'input>);

/// Declares saphyr_parser::Span, an event's source location, as opaque.
#[verifier::external_type_specification]
#[verifier::external_body]
pub struct ExSpan(saphyr_parser::Span);

/// The events that parsing a text yields, or `None` when the text is not
/// well-formed YAML. Parsing is deterministic: the outcome depends on the
/// text alone.
pub uninterp spec fn parsed_events(text: Seq<char>) -> Option<Seq<EventV>>;

/// Relies on saphyr_parser::Event and saphyr_parser::Span: maps one parse
/// event to the library's event kind, keeping the scalar text and the span's
/// starting line.
#[verifier::external_body]
fn convert_event(ev: saphyr_parser::Event<'_>, span: saphyr_parser::Span) -> YamlEvent {
    match ev {
        saphyr_parser::Event::MappingStart(..) => YamlEvent::MappingStart,
        saphyr_parser::Event::MappingEnd => YamlEvent::MappingEnd,
        saphyr_parser::Event::SequenceStart(..) => YamlEvent::SequenceStart {
            line: span.start.line(),
        },
        saphyr_parser::Event::SequenceEnd => YamlEvent::SequenceEnd,
        saphyr_parser::Event::Scalar(v, ..) => YamlEvent::Scalar {
            value: v.into_owned(),
            line: span.start.line(),
        },
        _ => YamlEvent::Other,
    }
}

/// Relies on saphyr_parser::Parser: iterating a parser built from a text
/// yields the document's events in order, or a scan error with its location
/// on malformed input; the outcome is a function of the text alone.
#[verifier::external_body]
pub(crate) fn parse_yaml_events(text: &str) -> (r: Result<Vec<YamlEvent>, ParseError>)
    ensures
        match r {
            Ok(events) => parsed_events(text@) == Some(events_view(events@)),
            Err(_) => parsed_events(text@) is None,
        },
{
    let mut events: Vec<YamlEvent> = Vec::new();
    for item in saphyr_parser::Parser::new_from_str(text) {
        match item {
            Ok((ev, span)) => events.push(convert_event(ev, span)),
            Err(e) => return Err(ParseError {
                line: e.marker().line(),
                col: e.marker().col(),
                msg: e.info().to_string(),
            }),
        }
    }
    Ok(events)
}

/// Parses one document and flattens its events into that document's ordered
/// record list; fails exactly when the text is not well-formed YAML.
pub fn flatten_document(file: String, text: &str) -> (r: Result<
    Vec<(Vec<String>, ValueWithLocation)>,
    ParseError,
>)
    ensures
        match r {
            Ok(recs) => parsed_events(text@) is Some && recs_view(recs@) == flatten_spec(
                file@,
                parsed_events(text@).unwrap(),
            ),
            Err(_) => parsed_events(text@) is None,
        },
{
    match parse_yaml_events(text) {
        Ok(events) => Ok(flatten_events(file, &events)),
        Err(e) => Err(e),
    }
}

/// A chain's texts in application order: the base text first, then the
/// override texts.
pub open spec fn chain_texts(base: Seq<char>, overrides: Seq<Seq<char>>) -> Seq<Seq<char>> {
    seq![base] + overrides
}

/// Whether every text of a chain is well-formed YAML.
pub open spec fn all_parse(texts: Seq<Seq<char>>) -> bool {
    forall|i: int| 0 <= i < texts.len() ==> parsed_events(texts[i]) is Some
}

/// The flattened record lists of a chain whose texts all parse, one list per
/// document, in application order.
pub open spec fn chain_layers(files: Seq<Seq<char>>, texts: Seq<Seq<char>>) -> Seq<Seq<RecordV>> {
    Seq::new(texts.len(), |i: int| flatten_spec(files[i], parsed_events(texts[i]).unwrap()))
}

/// The analyzer for one layer chain: the base file's name and the override
/// files' names, in application order.
pub struct PointlessPointer {
    pub base_file: String,
    pub override_files: Vec<String>,
}

impl PointlessPointer {
    pub fn new(base_file: String, override_files: Vec<String>) -> (r: Self)
        ensures
            r.base_file == base_file,
            r.override_files == override_files,
    {
        PointlessPointer { base_file, override_files }
    }

    /// The names of the chain's files: base first, then overrides in order.
    pub open spec fn chain_files(self) -> Seq<Seq<char>> {
        seq![self.base_file@] + self.override_files.deep_view()
    }

    /// Flattens the base text and the override texts in order and analyzes
    /// the resulting record lists. Succeeds exactly when every text is
    /// well-formed YAML; the first malformed text aborts the whole run.
    pub fn analyze(&self, base_text: &str, override_texts: &Vec<String>) -> (r: Result<
        (Vec<Override>, Vec<DuplicateKeyWarning>),
        ParseError,
    >)
        requires
            self.override_files@.len() == override_texts@.len(),
        ensures
            match r {
                Ok(res) => all_parse(chain_texts(base_text@, override_texts.deep_view()))
                    && ovs_view(res.0@) == pointless_spec(
                    chain_layers(
                        self.chain_files(),
                        chain_texts(base_text@, override_texts.deep_view()),
                    ),
                ) && warns_view(res.1@) == warnings_spec(
                    chain_layers(
                        self.chain_files(),
                        chain_texts(base_text@, override_texts.deep_view()),
                    ),
                ),
                Err(_) => !all_parse(chain_texts(base_text@, override_texts.deep_view())),
            },
    {
        let ghost files = self.chain_files();
        let ghost texts = chain_texts(base_text@, override_texts.deep_view());
        let mut all_values: Vec<Vec<(Vec<String>, ValueWithLocation)>> = Vec::new();

        let base_records = match flatten_document(self.base_file.clone(), base_text) {
            Ok(recs) => recs,
            Err(e) => {
                proof {
                    assert(texts[0] == base_text@);
                }
                return Err(e);
            },
        };
        all_values.push(base_records);
        proof {
            assert(layers_view(all_values@) =~= chain_layers(files, texts).take(1));
        }

        let mut i: usize = 0;
        while i < self.override_files.len()
            invariant
                i <= self.override_files@.len(),
                self.override_files@.len() == override_texts@.len(),
                files == self.chain_files(),
                texts == chain_texts(base_text@, override_texts.deep_view()),
                texts.len() == self.override_files@.len() + 1,
                forall|j: int| 0 <= j <= i ==> parsed_events(texts[j]) is Some,
                layers_view(all_values@) == chain_layers(files, texts).take(i as int + 1),
                all_values@.len() == i + 1,
            decreases self.override_files@.len() - i,
        {
            let name = self.override_files[i].clone();
            let text = override_texts[i].as_str();
            proof {
                assert(name@ == files[i as int + 1]);
                assert(text@ == texts[i as int + 1]);
            }
            let recs = match flatten_document(name, text) {
                Ok(recs) => recs,
                Err(e) => {
                    proof {
                        assert(parsed_events(texts[i as int + 1]) is None);
                    }
                    return Err(e);
                },
            };
            let ghost old_layers = layers_view(all_values@);
            all_values.push(recs);
            proof {
                assert(layers_view(all_values@) =~= old_layers.push(recs_view(recs@)));
                assert(chain_layers(files, texts).take(i as int + 2) =~= chain_layers(
                    files,
                    texts,
                ).take(i as int + 1).push(chain_layers(files, texts)[i as int + 1]));
                assert(layers_view(all_values@) =~= chain_layers(files, texts).take(i as int + 2));
            }
            i = i + 1;
        }
        proof {
            assert(chain_layers(files, texts).take(texts.len() as int) =~= chain_layers(
                files,
                texts,
            ));
            assert(layers_view(all_values@) == chain_layers(files, texts));
        }
        let result = find_pointless_overrides_and_warnings(&all_values);
        Ok(result)
    }
}

} // verus!
