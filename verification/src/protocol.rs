//! The messages between graphics clients and the graphics server.
use vstd::prelude::*;

verus! {

/// What a client asks of the graphics server.
#[derive(Clone, Copy, PartialEq, Eq, Structural)]
pub enum GraphicsCommand {
    CreateSurface,
    DestroySurface,
    UpdateSurface,
    BlitSurface,
    PresentSurface,
    SetPosition,
    SetZOrder,
}

/// The number that carries a command in a request.
pub open spec fn command_code(c: GraphicsCommand) -> u32 {
    match c {
        GraphicsCommand::CreateSurface => 1,
        GraphicsCommand::DestroySurface => 2,
        GraphicsCommand::UpdateSurface => 3,
        GraphicsCommand::BlitSurface => 4,
        GraphicsCommand::PresentSurface => 5,
        GraphicsCommand::SetPosition => 6,
        GraphicsCommand::SetZOrder => 7,
    }
}

impl GraphicsCommand {
    /// The command's number.
    pub fn code(self) -> (n: u32)
        ensures
            n == command_code(self),
    {
        match self {
            GraphicsCommand::CreateSurface => 1,
            GraphicsCommand::DestroySurface => 2,
            GraphicsCommand::UpdateSurface => 3,
            GraphicsCommand::BlitSurface => 4,
            GraphicsCommand::PresentSurface => 5,
            GraphicsCommand::SetPosition => 6,
            GraphicsCommand::SetZOrder => 7,
        }
    }

    /// The command a number names, for 1 to 7.
    pub fn from_u32(n: u32) -> (r: Option<GraphicsCommand>)
        ensures
            r matches Some(c) ==> command_code(c) == n,
            r is None <==> !(1 <= n <= 7),
    {
        match n {
            1 => Some(GraphicsCommand::CreateSurface),
            2 => Some(GraphicsCommand::DestroySurface),
            3 => Some(GraphicsCommand::UpdateSurface),
            4 => Some(GraphicsCommand::BlitSurface),
            5 => Some(GraphicsCommand::PresentSurface),
            6 => Some(GraphicsCommand::SetPosition),
            7 => Some(GraphicsCommand::SetZOrder),
            _ => None,
        }
    }
}

/// A client's request: the command's number, the surface it is about, a
/// position, a size and the length of the pixel data that follows.
#[derive(Clone, Copy)]
pub struct GraphicsRequest {
    pub command: u32,
    pub surface_id: u64,
    pub x: i32,
    pub y: i32,
    pub width: u32,
    pub height: u32,
    pub data_len: usize,
}

impl GraphicsRequest {
    /// The command the request carries, if its number names one.
    pub fn command(&self) -> (r: Option<GraphicsCommand>)
        ensures
            r matches Some(c) ==> command_code(c) == self.command,
            r is None <==> !(1 <= self.command <= 7),
    {
        GraphicsCommand::from_u32(self.command)
    }
}

/// The server's answer: whether the request succeeded, the surface it
/// concerns and an error code.
#[derive(Clone, Copy)]
pub struct GraphicsResponse {
    pub success: bool,
    pub surface_id: u64,
    pub error_code: i32,
}

impl GraphicsResponse {
    /// A successful answer about `surface_id`.
    pub fn ok(surface_id: u64) -> (r: Self)
        ensures
            r.success && r.surface_id == surface_id && r.error_code == 0,
    {
        GraphicsResponse { success: true, surface_id, error_code: 0 }
    }

    /// A failed answer with `error_code`.
    pub fn error(error_code: i32) -> (r: Self)
        ensures
            !r.success && r.surface_id == 0 && r.error_code == error_code,
    {
        GraphicsResponse { success: false, surface_id: 0, error_code }
    }
}

/// A command's number names that command again.
pub proof fn lemma_command_code_injective(a: GraphicsCommand, b: GraphicsCommand)
    ensures
        command_code(a) == command_code(b) ==> a == b,
        1 <= command_code(a) <= 7,
{
}

} // verus!
