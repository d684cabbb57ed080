use vstd::prelude::*;

verus! {

/// What a command handler asks its host to do once the command has been applied.
#[derive(Debug)]
pub enum Effect<Io> {
    /// Publish `payload` on the state or stream key `key`.
    Publish { key: String, payload: Vec<u8> },
    /// Answer the request identified by `correlation`.
    Reply { correlation: u32, payload: Vec<u8> },
    /// Perform an I/O request of the domain.
    Io(Io),
}

/// The value of an `Effect`.
pub enum EffectView<Io> {
    Publish { key: Seq<char>, payload: Seq<u8> },
    Reply { correlation: u32, payload: Seq<u8> },
    Io(Io),
}

impl<Io: Copy> View for Effect<Io> {
    type V = EffectView<Io>;

    open spec fn view(&self) -> EffectView<Io> {
        match self {
            Effect::Publish { key, payload } => EffectView::Publish { key: key@, payload: payload@ },
            Effect::Reply { correlation, payload } => EffectView::Reply {
                correlation: *correlation,
                payload: payload@,
            },
            Effect::Io(io) => EffectView::Io(*io),
        }
    }
}

/// The values of a list of effects.
pub open spec fn effects_view<Io: Copy>(effects: Seq<Effect<Io>>) -> Seq<EffectView<Io>> {
    effects.map_values(|effect: Effect<Io>| effect@)
}

} // verus!
