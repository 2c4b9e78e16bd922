//! Value descriptors and the descriptor mapping loaded from a source file.
//!
//! A descriptor says how a key's value is obtained: either a literal string,
//! or the output of a command. The raw, on-disk shape is a record with a
//! `source` tag and three optional fields; building a [`Descriptor`] from it
//! checks that the fields present match the tag.

use vstd::prelude::*;
use vstd::string::StringExecFns;
use crate::errors::{ConfigError, ErrorModel};
use crate::kv::{kv_model, lookup_model, unique_keys, upsert_model};
use crate::kv::{lemma_upsert_unique, lookup, upsert};

verus! {

/// Spec-level mirror of [`Descriptor`].
pub enum DescModel {
    Command { program: Seq<char>, args: Seq<Seq<char>> },
    Literal { value: Seq<char> },
}

/// How one key's value is obtained: by running a command, or by returning a
/// literal. The fields of each variant are exactly those the variant needs,
/// so no descriptor can pair a tag with the wrong fields.
pub enum Descriptor {
    /// Run `program` with `args` and use its standard output.
    Command { program: String, args: Vec<String> },
    /// Use `value` as it stands.
    Literal { value: String },
}

impl View for Descriptor {
    type V = DescModel;

    open spec fn view(&self) -> DescModel {
        match self {
            Descriptor::Command { program, args } => DescModel::Command {
                program: program@,
                args: args.deep_view(),
            },
            Descriptor::Literal { value } => DescModel::Literal { value: value@ },
        }
    }
}

/// Spec-level mirror of [`RawDescriptor`].
pub struct RawModel {
    pub source: Seq<char>,
    pub program: Option<Seq<char>>,
    pub args: Option<Seq<Seq<char>>>,
    pub value: Option<Seq<char>>,
}

/// A descriptor as the source file spells it: a `source` tag naming the
/// variant, and the per-variant fields, each optional at this stage.
pub struct RawDescriptor {
    /// The variant tag: `cmd` or `value`.
    pub source: String,
    /// The program to run; required when the tag is `cmd`.
    pub program: Option<String>,
    /// The program's arguments; an absent list means no arguments.
    pub args: Option<Vec<String>>,
    /// The literal; an absent literal means the empty string.
    pub value: Option<String>,
}

impl View for RawDescriptor {
    type V = RawModel;

    open spec fn view(&self) -> RawModel {
        RawModel {
            source: self.source@,
            program: self.program.deep_view(),
            args: self.args.deep_view(),
            value: self.value.deep_view(),
        }
    }
}

/// The descriptor a raw record denotes: a `cmd` record must name a program,
/// its argument list defaults to empty, and a `value` record's literal
/// defaults to the empty string. Any other tag, and a `cmd` record without a
/// program, denote nothing.
pub open spec fn raw_to_descriptor(r: RawModel) -> Option<DescModel> {
    if r.source == "cmd"@ {
        match r.program {
            Some(program) => Some(
                DescModel::Command {
                    program,
                    args: match r.args {
                        Some(args) => args,
                        None => Seq::empty(),
                    },
                },
            ),
            None => None,
        }
    } else if r.source == "value"@ {
        Some(
            DescModel::Literal {
                value: match r.value {
                    Some(value) => value,
                    None => Seq::empty(),
                },
            },
        )
    } else {
        None
    }
}

/// Builds the descriptor a raw record denotes, if it denotes one.
pub fn descriptor_of_raw(raw: RawDescriptor) -> (r: Option<Descriptor>)
    ensures
        match r {
            Some(d) => raw_to_descriptor(raw@) == Some(d@),
            None => raw_to_descriptor(raw@) is None,
        },
{
    if raw.source.eq(&String::from_str("cmd")) {
        match raw.program {
            Some(program) => {
                let args = match raw.args {
                    Some(args) => args,
                    None => Vec::new(),
                };
                proof {
                    if raw@.args is None {
                        assert(args.deep_view() =~= Seq::<Seq<char>>::empty());
                    }
                }
                Some(Descriptor::Command { program, args })
            },
            None => None,
        }
    } else if raw.source.eq(&String::from_str("value")) {
        let value = match raw.value {
            Some(value) => value,
            None => String::new(),
        };
        Some(Descriptor::Literal { value })
    } else {
        None
    }
}

/// The message reported when a raw record denotes no descriptor.
pub open spec fn parse_error_message(key: Seq<char>) -> Seq<char> {
    "Invalid descriptor for key '"@ + key + "'"@
}

/// What loading a list of raw records yields, folding from `acc`: the first
/// record that denotes no descriptor fails the load; otherwise each record's
/// descriptor is bound to its key in order, a later record replacing an
/// earlier one with the same key.
pub open spec fn parse_model_from(
    rs: Seq<(Seq<char>, RawModel)>,
    acc: Seq<(Seq<char>, DescModel)>,
) -> Result<Seq<(Seq<char>, DescModel)>, ErrorModel>
    decreases rs.len(),
{
    if rs.len() == 0 {
        Ok(acc)
    } else {
        match raw_to_descriptor(rs[0].1) {
            Some(d) => parse_model_from(rs.drop_first(), upsert_model(acc, rs[0].0, d)),
            None => Err(ErrorModel::Parse { message: parse_error_message(rs[0].0) }),
        }
    }
}

/// What loading a list of raw records yields.
pub open spec fn parse_model(rs: Seq<(Seq<char>, RawModel)>) -> Result<
    Seq<(Seq<char>, DescModel)>,
    ErrorModel,
> {
    parse_model_from(rs, Seq::empty())
}

/// The mapping from key to descriptor, as loaded from the source file.
/// Entries keep their order and their keys are unique.
pub struct DescriptorMap {
    entries: Vec<(String, Descriptor)>,
}

impl DescriptorMap {
    /// The entries, keys and descriptors as views, in order.
    pub closed spec fn model(&self) -> Seq<(Seq<char>, DescModel)> {
        kv_model(self.entries@)
    }

    /// No two entries share a key.
    pub open spec fn wf(&self) -> bool {
        unique_keys(self.model())
    }

    /// The descriptor bound to `key`, if any.
    pub fn get<'a>(&'a self, key: &String) -> (r: Option<&'a Descriptor>)
        ensures
            match r {
                Some(d) => lookup_model(self.model(), key@) == Some(d@),
                None => lookup_model(self.model(), key@) is None,
            },
    {
        lookup(&self.entries, key)
    }
}

/// Builds the descriptor mapping from raw records, in their order. Fails
/// with a parse error naming the first key whose record denotes no
/// descriptor; a later record replaces an earlier one with the same key.
#[verifier::loop_isolation(false)]
pub fn parse_config(raw_entries: Vec<(String, RawDescriptor)>) -> (r: Result<
    DescriptorMap,
    ConfigError,
>)
    ensures
        match r {
            Ok(m) => parse_model(kv_model(raw_entries@)) == Ok::<_, ErrorModel>(m.model())
                && m.wf(),
            Err(e) => parse_model(kv_model(raw_entries@)) == Err::<Seq<(Seq<char>, DescModel)>, _>(
                e@,
            ),
        },
{
    let ghost input = kv_model(raw_entries@);
    let mut rest = raw_entries;
    let mut map = DescriptorMap { entries: Vec::new() };
    proof {
        assert(map.model() =~= Seq::<(Seq<char>, DescModel)>::empty());
        assert(kv_model(rest@) =~= input);
    }
    while rest.len() > 0
        invariant
            map.wf(),
            parse_model(input) == parse_model_from(kv_model(rest@), map.model()),
        decreases rest@.len(),
    {
        let ghost pre = kv_model(rest@);
        let (key, raw) = rest.remove(0);
        let ghost k0 = key@;
        proof {
            assert(kv_model(rest@) =~= pre.drop_first());
            assert(pre[0] == (k0, raw@));
        }
        match descriptor_of_raw(raw) {
            Some(d) => {
                proof {
                    lemma_upsert_unique(map.model(), k0, d@);
                }
                upsert(&mut map.entries, key, d);
            },
            None => {
                let mut message = String::from_str("Invalid descriptor for key '");
                message.append(key.as_str());
                message.append("'");
                proof {
                    assert(raw_to_descriptor(pre[0].1) is None);
                    assert(parse_model_from(pre, map.model()) == Err::<
                        Seq<(Seq<char>, DescModel)>,
                        ErrorModel,
                    >(ErrorModel::Parse { message: parse_error_message(k0) }));
                    assert(message@ == parse_error_message(k0));
                }
                return Err(ConfigError::Parse { message });
            },
        }
    }
    proof {
        assert(kv_model(rest@) =~= Seq::<(Seq<char>, RawModel)>::empty());
    }
    Ok(map)
}

} // verus!
