use vstd::prelude::*;

verus! {

/// Evaluates a Lua chunk in a fresh Lua state and reads its value as a string
/// (`mlua::Lua::new`, `Chunk::eval::<String>`); an error becomes its text.
/// Trusted for its type only: nothing is stated of the value, which the
/// chunk may draw from files, the clock or the environment through Lua's
/// standard libraries.
#[verifier::external_body]
fn eval_lua_chunk(code: &str) -> (r: Result<String, String>) {
    mlua::Lua::new().load(code).eval::<String>().map_err(|e| e.to_string())
}

/// Runs a Lua chunk and gives its value as a string, or the text of the
/// error it raised. What comes back rests on the Lua interpreter alone.
pub fn run_lua_chunk(code: &str) -> (r: Result<String, String>) {
    eval_lua_chunk(code)
}

/// The outcome of running a Lua chunk on a worker task: `None` when the task
/// itself could not complete, otherwise the chunk's value or error text.
pub open spec fn settled(joined: Option<Result<String, String>>) -> Result<Seq<char>, Seq<char>> {
    match joined {
        Some(Ok(v)) => Ok(v@),
        Some(Err(e)) => Err(e@),
        None => Err("could create task"@),
    }
}

/// Settles the result of a Lua run: the chunk's value or error passes
/// through, and a task that did not complete becomes the error
/// `could create task`.
pub fn settle_lua_result(joined: Option<Result<String, String>>) -> (r: Result<String, String>)
    ensures
        match r {
            Ok(v) => settled(joined) == Ok::<Seq<char>, Seq<char>>(v@),
            Err(e) => settled(joined) == Err::<Seq<char>, Seq<char>>(e@),
        },
{
    match joined {
        Some(Ok(v)) => Ok(v),
        Some(Err(e)) => Err(e),
        None => Err("could create task".to_owned()),
    }
}

} // verus!
