use vstd::prelude::*;

verus! {

/// A point given as positive or negative percent of the screen width and
/// height.
#[derive(Copy, Clone, Debug, PartialEq, Eq, Structural)]
pub struct ScreenPercent {
    pub x: i32,
    pub y: i32,
}

/// One scrolling lane: its input key, scroll speed and geometry.
#[derive(Clone, Debug, PartialEq, Eq)]
pub struct ArrowChannelSettings {
    /// Name of the key bound to this channel.
    pub key: String,
    /// Given as percent of the distance between spawn and target per second.
    pub scroll_speed: u8,
    /// Where a note of this channel first appears.
    pub spawn_position: ScreenPercent,
    /// Where a note of this channel must be hit.
    pub target_position: ScreenPercent,
    /// Rotation of the target sprite, in degrees.
    pub local_rotation: i32,
    /// Rotation of the whole lane, in degrees.
    pub world_rotation: i32,
}

/// The whole game configuration: judgement thresholds (loaded but not yet
/// consumed) and one entry per note channel.
#[derive(Clone, Debug, PartialEq, Eq)]
pub struct GameSettingsResource {
    pub judgements: Vec<usize>,
    pub channels: Vec<ArrowChannelSettings>,
}

impl GameSettingsResource {
    /// How many channels are configured: notes with a channel index at or
    /// beyond this count have no lane to scroll in.
    pub fn channel_count(&self) -> (r: usize)
        ensures
            r == self.channels@.len(),
    {
        self.channels.len()
    }

    /// The key names bound to the channels, in channel order.
    pub fn channel_keys(&self) -> (r: Vec<String>)
        ensures
            r@.len() == self.channels@.len(),
            forall|i: int| 0 <= i < r@.len() ==> r@[i]@ == self.channels@[i].key@,
    {
        let mut keys: Vec<String> = Vec::new();
        let mut i: usize = 0;
        while i < self.channels.len()
            invariant
                0 <= i <= self.channels@.len(),
                keys@.len() == i,
                forall|j: int| 0 <= j < i ==> keys@[j]@ == self.channels@[j].key@,
            decreases self.channels@.len() - i,
        {
            keys.push(self.channels[i].key.clone());
            i = i + 1;
        }
        keys
    }
}

/// The built-in configuration: the thresholds and the single `D`-keyed
/// channel that are written out when no configuration exists yet.
pub fn default_settings() -> (r: GameSettingsResource)
    ensures
        r.judgements@ == seq![16usize, 40usize, 73usize, 104usize, 127usize],
        r.channels@.len() == 1,
        r.channels@[0].key@ == "D"@,
        r.channels@[0].scroll_speed == 100,
        r.channels@[0].spawn_position == (ScreenPercent { x: 0, y: 0 }),
        r.channels@[0].target_position == (ScreenPercent { x: 0, y: 0 }),
        r.channels@[0].local_rotation == 0,
        r.channels@[0].world_rotation == 0,
{
    let mut judgements: Vec<usize> = Vec::new();
    judgements.push(16);
    judgements.push(40);
    judgements.push(73);
    judgements.push(104);
    judgements.push(127);
    proof {
        assert(judgements@ =~= seq![16usize, 40usize, 73usize, 104usize, 127usize]);
    }
    let channel = ArrowChannelSettings {
        key: "D".to_owned(),
        scroll_speed: 100,
        spawn_position: ScreenPercent { x: 0, y: 0 },
        target_position: ScreenPercent { x: 0, y: 0 },
        local_rotation: 0,
        world_rotation: 0,
    };
    let mut channels: Vec<ArrowChannelSettings> = Vec::new();
    channels.push(channel);
    GameSettingsResource { judgements, channels }
}

/// The key names whose channels were just pressed: `just_pressed[i]` says
/// whether the key of channel `i` was pressed this frame.
pub fn pressed_channel_keys(keys: &Vec<String>, just_pressed: &Vec<bool>) -> (r: Vec<String>)
    requires
        keys@.len() == just_pressed@.len(),
    ensures
        r.deep_view() == spec_pressed(keys.deep_view(), just_pressed@),
{
    let mut out: Vec<String> = Vec::new();
    let mut i: usize = 0;
    proof {
        assert(keys.deep_view().take(0) =~= Seq::<Seq<char>>::empty());
        assert(just_pressed@.take(0) =~= Seq::<bool>::empty());
        assert(out.deep_view() =~= spec_pressed(keys.deep_view().take(0), just_pressed@.take(0)));
    }
    while i < keys.len()
        invariant
            0 <= i <= keys@.len(),
            keys@.len() == just_pressed@.len(),
            keys.deep_view().len() == keys@.len(),
            out.deep_view() == spec_pressed(
                keys.deep_view().take(i as int),
                just_pressed@.take(i as int),
            ),
        decreases keys@.len() - i,
    {
        proof {
            assert(keys.deep_view().take(i + 1).drop_last() =~= keys.deep_view().take(i as int));
            assert(just_pressed@.take(i + 1).drop_last() =~= just_pressed@.take(i as int));
            assert(keys.deep_view().take(i + 1).last() == keys.deep_view()[i as int]);
            assert(just_pressed@.take(i + 1).last() == just_pressed@[i as int]);
            assert(keys.deep_view()[i as int] == keys@[i as int]@);
        }
        if just_pressed[i] {
            out.push(keys[i].clone());
        }
        i = i + 1;
    }
    proof {
        assert(keys.deep_view().take(keys@.len() as int) =~= keys.deep_view());
        assert(just_pressed@.take(just_pressed@.len() as int) =~= just_pressed@);
    }
    out
}

/// The key names, in order, whose flag in `pressed` is set.
pub open spec fn spec_pressed(keys: Seq<Seq<char>>, pressed: Seq<bool>) -> Seq<Seq<char>>
    decreases keys.len(),
{
    if keys.len() == 0 || pressed.len() == 0 {
        Seq::empty()
    } else if pressed.last() {
        spec_pressed(keys.drop_last(), pressed.drop_last()).push(keys.last())
    } else {
        spec_pressed(keys.drop_last(), pressed.drop_last())
    }
}

} // verus!
