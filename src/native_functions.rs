use vstd::prelude::*;
use vstd::string::*;

use crate::errors::{runtime_failure, unknown_loc, Failure, MakerError, MakerErrorType};
use crate::lexer::Location;
use crate::values::{entries, names_unique, NativeFunction, Object, RuntimeValue, StringValue, Val};

verus! {

/// The identifier of the capability that replies to the triggering message.
pub const REPLY: u64 = 1;

/// The object a script sees as `message`: the message's identifier and text, and
/// the capability to reply to it.
pub open spec fn message_model(id: Seq<char>, content: Seq<char>) -> Val {
    Val::Object(
        seq![
            (seq!['r', 'e', 'p', 'l', 'y'], Val::Native(REPLY)),
            (seq!['i', 'd'], Val::Str(id)),
            (seq!['c', 'o', 'n', 't', 'e', 'n', 't'], Val::Str(content)),
        ],
    )
}

/// Builds the `message` object of a message with identifier `id` and text `content`.
pub fn generate_from_message(id: String, content: String) -> (r: RuntimeValue)
    ensures
        r.model() == message_model(id@, content@),
{
    proof {
        reveal_strlit("reply");
        reveal_strlit("id");
        reveal_strlit("content");
    }
    let reply = "reply".to_owned();
    let id_key = "id".to_owned();
    let content_key = "content".to_owned();
    assert(reply@ =~= seq!['r', 'e', 'p', 'l', 'y']);
    assert(id_key@ =~= seq!['i', 'd']);
    assert(content_key@ =~= seq!['c', 'o', 'n', 't', 'e', 'n', 't']);
    let items = vec![
        (reply, RuntimeValue::NativeFunction(NativeFunction { id: REPLY })),
        (id_key, StringValue::make(id)),
        (content_key, StringValue::make(content)),
    ];
    assert(entries(items@) =~= message_model(id@, content@)->Object_0);
    assert(names_unique(entries(items@))) by {
        assert(entries(items@)[0].0.len() == 5);
        assert(entries(items@)[1].0.len() == 2);
        assert(entries(items@)[2].0.len() == 7);
    }
    let r = Object::make(items);
    assert(entries(items@) =~= message_model(id@, content@)->Object_0);
    r
}

/// What the reply capability makes of its arguments: the text of its one
/// argument, which must be a string.
pub open spec fn reply_text_of(args: Seq<Val>) -> Result<Seq<char>, Failure> {
    if args.len() == 0 {
        Err(runtime_failure("Not enough args provided! Missing arg at argument 0"@, unknown_loc()))
    } else if args.len() > 1 {
        Err(runtime_failure("Too many args provided! Expected exactly one argument"@, unknown_loc()))
    } else {
        match args[0] {
            Val::Str(text) => Ok(text),
            _ => Err(runtime_failure("Invalid type for argument 0"@, unknown_loc())),
        }
    }
}

/// Checks that the reply capability got exactly one argument, a string, and hands
/// back its text.
pub fn reply_text(args: &Vec<RuntimeValue>) -> (r: Result<String, MakerError>)
    ensures
        match (r, reply_text_of(args@.map_values(|v: RuntimeValue| v.model()))) {
            (Ok(s), Ok(t)) => s@ == t,
            (Err(e), Err(f)) => e.failure() == f,
            _ => false,
        },
{
    proof {
        reveal_strlit("<unknown>");
    }
    if args.len() == 0 {
        proof {
            reveal_strlit("Not enough args provided! Missing arg at argument 0");
        }
        return Err(
            MakerError::lang(
                "Not enough args provided! Missing arg at argument 0".to_owned(),
                Location::no_location(),
                MakerErrorType::RuntimeError,
            ),
        );
    }
    if args.len() > 1 {
        proof {
            reveal_strlit("Too many args provided! Expected exactly one argument");
        }
        return Err(
            MakerError::lang(
                "Too many args provided! Expected exactly one argument".to_owned(),
                Location::no_location(),
                MakerErrorType::RuntimeError,
            ),
        );
    }
    match &args[0] {
        RuntimeValue::StringValue(s) => Ok(s.value.clone()),
        _ => {
            proof {
                reveal_strlit("Invalid type for argument 0");
            }
            Err(
                MakerError::lang(
                    "Invalid type for argument 0".to_owned(),
                    Location::no_location(),
                    MakerErrorType::RuntimeError,
                ),
            )
        },
    }
}

} // verus!
