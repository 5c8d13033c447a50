use vstd::prelude::*;

verus! {

/// What `str::to_uppercase` makes of a text.
pub uninterp spec fn uppercase_of(text: Seq<char>) -> Seq<char>;

/// `str::to_uppercase`: the text with every character replaced by its upper-case
/// form, which does not depend on where or when the call is made.
#[verifier::external_body]
fn to_uppercase(text: &str) -> (upper: String)
    ensures
        upper@ == uppercase_of(text@),
{
    text.to_uppercase()
}

/// Where the key of a command stands among the arguments of the request that
/// schedules it, by the command's name in upper case: a push to a list names
/// its key right after the command's name, which is the third argument of the
/// request; of any other command no key is known.
pub open spec fn key_position_of(upper_name: Seq<char>) -> Option<i32> {
    if upper_name == "LPUSH"@ || upper_name == "RPUSH"@ {
        Some(3i32)
    } else {
        None
    }
}

/// The key position for a command's name that is already in upper case: see
/// [`key_position_of`].
pub fn key_position_by_name(upper_name: &str) -> (position: Option<i32>)
    ensures
        position == key_position_of(upper_name@),
{
    let name = upper_name.to_owned();
    if name == "LPUSH".to_owned() || name == "RPUSH".to_owned() {
        Some(3)
    } else {
        None
    }
}

/// The key position for the command `args`, whose name is its first word, read
/// without regard to case. A command without words has no key.
pub fn validate_command(args: &Vec<String>) -> (position: Option<i32>)
    ensures
        position == if args.len() == 0 {
            key_position_of(uppercase_of(Seq::<char>::empty()))
        } else {
            key_position_of(uppercase_of(args[0]@))
        },
{
    let upper = if args.len() == 0 {
        let empty = String::new();
        to_uppercase(empty.as_str())
    } else {
        to_uppercase(args[0].as_str())
    };
    key_position_by_name(upper.as_str())
}

/// The positions that a request names as keys: the schedule's own key, which
/// is the first argument, and then each key of the command, which the storage
/// layer counts from the command's name and which stands `offset` arguments
/// further on in the request.
pub open spec fn request_key_positions(offset: i32, command_keys: Seq<i32>) -> Seq<int> {
    seq![1int] + Seq::new(command_keys.len(), |i: int| offset + command_keys[i])
}

/// The key positions of a request: see [`request_key_positions`].
pub fn key_positions(offset: i32, command_keys: &Vec<i32>) -> (positions: Vec<i32>)
    requires
        forall|i: int|
            0 <= i < command_keys.len() ==> i32::MIN <= offset + #[trigger] command_keys[i]
                <= i32::MAX,
    ensures
        positions@.map_values(|p: i32| p as int) == request_key_positions(offset, command_keys@),
{
    let mut positions: Vec<i32> = Vec::with_capacity(command_keys.len());
    positions.push(1);
    let mut i: usize = 0;
    while i < command_keys.len()
        invariant
            i <= command_keys.len(),
            positions.len() == i + 1,
            forall|j: int|
                0 <= j < command_keys.len() ==> i32::MIN <= offset + #[trigger] command_keys[j]
                    <= i32::MAX,
            forall|j: int|
                0 <= j < positions.len() ==> #[trigger] positions[j] == request_key_positions(
                    offset,
                    command_keys@,
                )[j],
        decreases command_keys.len() - i,
    {
        positions.push(offset + command_keys[i]);
        i += 1;
    }
    assert(positions@.map_values(|p: i32| p as int) =~= request_key_positions(
        offset,
        command_keys@,
    ));
    positions
}

} // verus!
