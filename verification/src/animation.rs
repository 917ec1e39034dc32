use vstd::prelude::*;
use crate::random::{random_u32, RandomError};

verus! {

/// The clips of the player's animation graph.
#[derive(Clone, Copy, Debug, PartialEq, Eq, Hash, Structural)]
pub enum PlayerAnimationNode {
    Breakdance,
    Climb,
    Dance,
    Dance2,
    Dance3,
    Dance4,
    Float,
    HeadSpin,
    HeadSpin2,
    Idle,
    Run,
    RunJump,
    Walk,
}

/// Every clip, in declaration order (the order of their numbers).
pub open spec fn all_nodes() -> Seq<PlayerAnimationNode> {
    seq![
        PlayerAnimationNode::Breakdance,
        PlayerAnimationNode::Climb,
        PlayerAnimationNode::Dance,
        PlayerAnimationNode::Dance2,
        PlayerAnimationNode::Dance3,
        PlayerAnimationNode::Dance4,
        PlayerAnimationNode::Float,
        PlayerAnimationNode::HeadSpin,
        PlayerAnimationNode::HeadSpin2,
        PlayerAnimationNode::Idle,
        PlayerAnimationNode::Run,
        PlayerAnimationNode::RunJump,
        PlayerAnimationNode::Walk,
    ]
}

/// The number of a clip: its position in declaration order.
pub open spec fn node_number(n: PlayerAnimationNode) -> int {
    match n {
        PlayerAnimationNode::Breakdance => 0,
        PlayerAnimationNode::Climb => 1,
        PlayerAnimationNode::Dance => 2,
        PlayerAnimationNode::Dance2 => 3,
        PlayerAnimationNode::Dance3 => 4,
        PlayerAnimationNode::Dance4 => 5,
        PlayerAnimationNode::Float => 6,
        PlayerAnimationNode::HeadSpin => 7,
        PlayerAnimationNode::HeadSpin2 => 8,
        PlayerAnimationNode::Idle => 9,
        PlayerAnimationNode::Run => 10,
        PlayerAnimationNode::RunJump => 11,
        PlayerAnimationNode::Walk => 12,
    }
}

/// The dances, numbered as a roll modulo 7 picks them.
pub open spec fn dances() -> Seq<PlayerAnimationNode> {
    seq![
        PlayerAnimationNode::Breakdance,
        PlayerAnimationNode::Dance,
        PlayerAnimationNode::Dance2,
        PlayerAnimationNode::Dance3,
        PlayerAnimationNode::Dance4,
        PlayerAnimationNode::HeadSpin,
        PlayerAnimationNode::HeadSpin2,
    ]
}

/// Locomotion clips, whose weights blend smoothly into one another.
pub open spec fn blends(n: PlayerAnimationNode) -> bool {
    n == PlayerAnimationNode::Idle || n == PlayerAnimationNode::Walk || n == PlayerAnimationNode::Run
        || n == PlayerAnimationNode::Float
}

/// How the weight of one clip moves towards its target this frame.
#[derive(Clone, Copy, Debug, PartialEq, Eq, Structural)]
pub enum WeightStep {
    /// Set the weight to the target at once.
    Snap,
    /// Move the weight towards the target by at most `rate` times the frame time.
    Ease(u32),
}

impl PlayerAnimationNode {
    /// Every clip, in declaration order.
    pub fn iter() -> (r: Vec<PlayerAnimationNode>)
        ensures
            r@ == all_nodes(),
    {
        let r = vec![
            PlayerAnimationNode::Breakdance,
            PlayerAnimationNode::Climb,
            PlayerAnimationNode::Dance,
            PlayerAnimationNode::Dance2,
            PlayerAnimationNode::Dance3,
            PlayerAnimationNode::Dance4,
            PlayerAnimationNode::Float,
            PlayerAnimationNode::HeadSpin,
            PlayerAnimationNode::HeadSpin2,
            PlayerAnimationNode::Idle,
            PlayerAnimationNode::Run,
            PlayerAnimationNode::RunJump,
            PlayerAnimationNode::Walk,
        ];
        assert(r@ =~= all_nodes());
        r
    }

    /// The dance that `roll` picks: number `roll % 7` of `dances()`.
    pub fn random_dance_from(roll: u32) -> (r: PlayerAnimationNode)
        ensures
            r == dances()[(roll % 7) as int],
    {
        match roll % 7 {
            0 => PlayerAnimationNode::Breakdance,
            1 => PlayerAnimationNode::Dance,
            2 => PlayerAnimationNode::Dance2,
            3 => PlayerAnimationNode::Dance3,
            4 => PlayerAnimationNode::Dance4,
            5 => PlayerAnimationNode::HeadSpin,
            _ => PlayerAnimationNode::HeadSpin2,
        }
    }

    /// A dance picked with a random roll from the operating system, or
    /// `RandomError` when the source failed.
    pub fn random_dance() -> (r: Result<PlayerAnimationNode, RandomError>)
        ensures
            r matches Ok(n) ==> dances().contains(n),
    {
        match random_u32() {
            Ok(roll) => {
                let n = Self::random_dance_from(roll);
                assert(dances()[(roll % 7) as int] == n);
                Ok(n)
            },
            Err(e) => Err(e),
        }
    }

    /// Whether this clip blends smoothly with the others.
    pub fn need_interpolation(&self) -> (b: bool)
        ensures
            b == blends(*self),
    {
        match self {
            PlayerAnimationNode::Idle | PlayerAnimationNode::Walk | PlayerAnimationNode::Run
            | PlayerAnimationNode::Float => true,
            _ => false,
        }
    }

    /// The number of this clip: its position in declaration order.
    pub fn to_u8(&self) -> (r: u8)
        ensures
            r == node_number(*self),
    {
        match self {
            PlayerAnimationNode::Breakdance => 0,
            PlayerAnimationNode::Climb => 1,
            PlayerAnimationNode::Dance => 2,
            PlayerAnimationNode::Dance2 => 3,
            PlayerAnimationNode::Dance3 => 4,
            PlayerAnimationNode::Dance4 => 5,
            PlayerAnimationNode::Float => 6,
            PlayerAnimationNode::HeadSpin => 7,
            PlayerAnimationNode::HeadSpin2 => 8,
            PlayerAnimationNode::Idle => 9,
            PlayerAnimationNode::Run => 10,
            PlayerAnimationNode::RunJump => 11,
            PlayerAnimationNode::Walk => 12,
        }
    }

    /// The clip with number `v`, or `None` for a number no clip has.
    pub fn try_from_u8(v: u8) -> (r: Option<PlayerAnimationNode>)
        ensures
            v < 13 ==> r == Some(all_nodes()[v as int]),
            v >= 13 ==> r is None,
    {
        match v {
            0 => Some(PlayerAnimationNode::Breakdance),
            1 => Some(PlayerAnimationNode::Climb),
            2 => Some(PlayerAnimationNode::Dance),
            3 => Some(PlayerAnimationNode::Dance2),
            4 => Some(PlayerAnimationNode::Dance3),
            5 => Some(PlayerAnimationNode::Dance4),
            6 => Some(PlayerAnimationNode::Float),
            7 => Some(PlayerAnimationNode::HeadSpin),
            8 => Some(PlayerAnimationNode::HeadSpin2),
            9 => Some(PlayerAnimationNode::Idle),
            10 => Some(PlayerAnimationNode::Run),
            11 => Some(PlayerAnimationNode::RunJump),
            12 => Some(PlayerAnimationNode::Walk),
            _ => None,
        }
    }
}

/// Whether clip `node` is the one to show fully (weight one) while `target`
/// is wanted; every other clip goes to weight zero.
pub fn is_weight_target(node: PlayerAnimationNode, target: PlayerAnimationNode) -> (b: bool)
    ensures
        b == (node == target),
{
    node == target
}

/// How clip `node`'s weight approaches its target while `target` is wanted:
/// between two blending clips it eases, faster (rate 8) when floating is
/// involved and at rate 6 otherwise; in every other case it snaps.
pub fn weight_step(node: PlayerAnimationNode, target: PlayerAnimationNode) -> (s: WeightStep)
    ensures
        s == (if blends(node) && blends(target) {
            if node == PlayerAnimationNode::Float || target == PlayerAnimationNode::Float {
                WeightStep::Ease(8)
            } else {
                WeightStep::Ease(6)
            }
        } else {
            WeightStep::Snap
        }),
{
    if node.need_interpolation() && target.need_interpolation() {
        if target == PlayerAnimationNode::Float || node == PlayerAnimationNode::Float {
            WeightStep::Ease(8)
        } else {
            WeightStep::Ease(6)
        }
    } else {
        WeightStep::Snap
    }
}

/// Reading a clip's number back gives the clip, and numbering the clip read
/// from a valid number gives that number.
pub proof fn lemma_node_numbers_round_trip(n: PlayerAnimationNode, v: u8)
    ensures
        0 <= node_number(n) < 13,
        all_nodes()[node_number(n)] == n,
        v < 13 ==> node_number(all_nodes()[v as int]) == v,
{
}

/// Every dance is a clip that does not blend: dancing always snaps.
pub proof fn lemma_dances_snap(roll: u32)
    ensures
        !blends(dances()[(roll % 7) as int]),
{
}

/// The clips that blend are exactly the four locomotion clips: Float, Idle,
/// Run and Walk, numbers 6, 9, 10 and 12. Between any two of them the weight
/// eases; every other clip snaps.
pub proof fn lemma_blending_clips(n: PlayerAnimationNode)
    ensures
        blends(n) <==> (node_number(n) == 6 || node_number(n) == 9 || node_number(n) == 10 || node_number(n) == 12),
        blends(PlayerAnimationNode::Idle),
        blends(PlayerAnimationNode::Walk),
        blends(PlayerAnimationNode::Run),
        blends(PlayerAnimationNode::Float),
{
}

} // verus!
