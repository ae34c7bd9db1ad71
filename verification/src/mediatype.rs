//! Catalog of known file extensions, partitioned into named groups with
//! per-group and per-extension enable flags, plus the scan-mode and control
//! signals shared with the scan engine.

use vstd::prelude::*;

use crate::string_utils::str_eq;
use crate::string_utils::to_uppercase;
use crate::string_utils::upper_of;

verus! {

/// How candidates are grouped and confirmed: by content or by metadata.
#[allow(non_camel_case_types)]
#[derive(Debug, PartialEq, Eq, Structural, Copy, Clone)]
pub enum ScanType {
    BINARY,
    METADATA,
}

/// Control signal from the caller to the running scan.
#[allow(non_camel_case_types)]
#[derive(Debug, PartialEq, Eq, Structural, Copy, Clone)]
pub enum Control {
    STOP,
    INTERRUPT,
    INFO,
}

/// One known extension, with its description and enable flag.
#[derive(Debug, Clone)]
pub struct MediaType {
    pub extension: String,
    pub description: String,
    pub selected: bool,
}

/// A named group of media types with a group-level enable flag.
#[derive(Debug, Clone)]
pub struct MediaGroup {
    pub name: String,
    pub media_types: Vec<MediaType>,
    pub selected: bool,
}

/// Whether `ext` occurs among the catalog entries `mts`.
pub open spec fn spec_known(mts: Seq<MediaType>, ext: Seq<char>) -> bool {
    exists|i: int| 0 <= i < mts.len() && mts[i].extension@ == ext
}

/// Whether `ext` occurs among `mts` with its own flag set.
pub open spec fn spec_entry_selected(mts: Seq<MediaType>, ext: Seq<char>) -> bool {
    exists|i: int| 0 <= i < mts.len() && mts[i].extension@ == ext && mts[i].selected
}

impl MediaGroup {
    /// A group whose entries all carry the group's enable flag.
    fn new(name: &str, media_types: Vec<MediaType>, selected: bool) -> (r: Self)
        ensures
            r.name@ == name@,
            r.selected == selected,
            r.media_types@.len() == media_types@.len(),
            forall|i: int|
                0 <= i < media_types@.len() ==> (#[trigger] r.media_types@[i]).extension@
                    == media_types@[i].extension@ && r.media_types@[i].description@
                    == media_types@[i].description@ && r.media_types@[i].selected == selected,
    {
        let mut mts: Vec<MediaType> = Vec::new();
        let mut i: usize = 0;
        while i < media_types.len()
            invariant
                i <= media_types@.len(),
                mts@.len() == i,
                forall|j: int|
                    0 <= j < i ==> (#[trigger] mts@[j]).extension@ == media_types@[j].extension@
                        && mts@[j].description@ == media_types@[j].description@ && mts@[j].selected
                        == selected,
            decreases media_types@.len() - i,
        {
            let mt = MediaType {
                extension: media_types[i].extension.clone(),
                description: media_types[i].description.clone(),
                selected,
            };
            mts.push(mt);
            i = i + 1;
        }
        Self { name: name.to_owned(), media_types: mts, selected }
    }

    /// Whether the extension is a known member of this group, whatever the
    /// enable flags say.
    pub fn is_known_extension(&self, extension: &str) -> (r: bool)
        ensures
            r == spec_known(self.media_types@, extension@),
    {
        let mut i: usize = 0;
        while i < self.media_types.len()
            invariant
                i <= self.media_types@.len(),
                forall|j: int|
                    0 <= j < i ==> (#[trigger] self.media_types@[j]).extension@ != extension@,
            decreases self.media_types@.len() - i,
        {
            if str_eq(self.media_types[i].extension.as_str(), extension) {
                return true;
            }
            i = i + 1;
        }
        false
    }

    /// Whether the extension is enabled here: the group flag and the
    /// entry's own flag must both be set.
    pub fn is_selected(&self, extension: &str) -> (r: bool)
        ensures
            r == (self.selected && spec_entry_selected(self.media_types@, extension@)),
    {
        if !self.selected {
            return false;
        }
        let mut i: usize = 0;
        while i < self.media_types.len()
            invariant
                i <= self.media_types@.len(),
                self.selected,
                forall|j: int|
                    0 <= j < i ==> !((#[trigger] self.media_types@[j]).extension@ == extension@
                        && self.media_types@[j].selected),
            decreases self.media_types@.len() - i,
        {
            if self.media_types[i].selected && str_eq(
                self.media_types[i].extension.as_str(),
                extension,
            ) {
                proof {
                    assert(spec_entry_selected(self.media_types@, extension@)) by {
                        assert(self.media_types@[i as int].extension@ == extension@
                            && self.media_types@[i as int].selected);
                    }
                }
                return true;
            }
            i = i + 1;
        }
        false
    }
}

impl MediaType {
    /// A catalog entry; the extension is stored uppercased, enabled by
    /// default.
    pub fn new(extension: &str, description: &str) -> (r: Self)
        ensures
            r.extension@ == upper_of(extension@),
            r.description@ == description@,
            r.selected == true,
    {
        Self {
            extension: to_uppercase(extension),
            description: description.to_owned(),
            selected: true,
        }
    }

    /// The built-in catalog: six groups; audio, document, image and video
    /// enabled by default, development and ignored types disabled. The
    /// member extensions of each group are pinned entry for entry.
    pub fn load_groups() -> (r: Vec<MediaGroup>)
        ensures
            r@.len() == 6,
            r@[0].name@ == "Audio"@ && r@[0].selected,
            r@[1].name@ == "Document"@ && r@[1].selected,
            r@[2].name@ == "Image"@ && r@[2].selected,
            r@[3].name@ == "Video"@ && r@[3].selected,
            r@[4].name@ == "Development"@ && !r@[4].selected,
            r@[5].name@ == "IGNORED"@ && !r@[5].selected,
            forall|g: int, i: int|
                0 <= g < 6 && 0 <= i < r@[g].media_types@.len() ==> (#[trigger] r@[g].media_types@[i]).selected
                    == r@[g].selected,
            r@[0].media_types@.len() == 45,
            r@[0].media_types@[0].extension@ == upper_of(".3gp"@),
            r@[0].media_types@[1].extension@ == upper_of(".8svx"@),
            r@[0].media_types@[2].extension@ == upper_of(".aa"@),
            r@[0].media_types@[3].extension@ == upper_of(".aac"@),
            r@[0].media_types@[4].extension@ == upper_of(".aax"@),
            r@[0].media_types@[5].extension@ == upper_of(".act"@),
            r@[0].media_types@[6].extension@ == upper_of(".aiff"@),
            r@[0].media_types@[7].extension@ == upper_of(".aif"@),
            r@[0].media_types@[8].extension@ == upper_of(".alac"@),
            r@[0].media_types@[9].extension@ == upper_of(".amr"@),
            r@[0].media_types@[10].extension@ == upper_of(".ape"@),
            r@[0].media_types@[11].extension@ == upper_of(".au"@),
            r@[0].media_types@[12].extension@ == upper_of(".awb"@),
            r@[0].media_types@[13].extension@ == upper_of(".cda"@),
            r@[0].media_types@[14].extension@ == upper_of(".dss"@),
            r@[0].media_types@[15].extension@ == upper_of(".dvf"@),
            r@[0].media_types@[16].extension@ == upper_of(".flac"@),
            r@[0].media_types@[17].extension@ == upper_of(".gsm"@),
            r@[0].media_types@[18].extension@ == upper_of(".iklax"@),
            r@[0].media_types@[19].extension@ == upper_of(".ivs"@),
            r@[0].media_types@[20].extension@ == upper_of(".m4a"@),
            r@[0].media_types@[21].extension@ == upper_of(".m4b"@),
            r@[0].media_types@[22].extension@ == upper_of(".m4p"@),
            r@[0].media_types@[23].extension@ == upper_of(".mmf"@),
            r@[0].media_types@[24].extension@ == upper_of(".movpkg"@),
            r@[0].media_types@[25].extension@ == upper_of(".mp3"@),
            r@[0].media_types@[26].extension@ == upper_of(".mpc"@),
            r@[0].media_types@[27].extension@ == upper_of(".msv"@),
            r@[0].media_types@[28].extension@ == upper_of(".nmf"@),
            r@[0].media_types@[29].extension@ == upper_of(".ogg"@),
            r@[0].media_types@[30].extension@ == upper_of(".oga"@),
            r@[0].media_types@[31].extension@ == upper_of(".mogg"@),
            r@[0].media_types@[32].extension@ == upper_of(".opus"@),
            r@[0].media_types@[33].extension@ == upper_of(".ra"@),
            r@[0].media_types@[34].extension@ == upper_of(".rm"@),
            r@[0].media_types@[35].extension@ == upper_of(".raw"@),
            r@[0].media_types@[36].extension@ == upper_of(".rf64"@),
            r@[0].media_types@[37].extension@ == upper_of(".sln"@),
            r@[0].media_types@[38].extension@ == upper_of(".tta"@),
            r@[0].media_types@[39].extension@ == upper_of(".voc"@),
            r@[0].media_types@[40].extension@ == upper_of(".vox"@),
            r@[0].media_types@[41].extension@ == upper_of(".wav"@),
            r@[0].media_types@[42].extension@ == upper_of(".wma"@),
            r@[0].media_types@[43].extension@ == upper_of(".wv"@),
            r@[0].media_types@[44].extension@ == upper_of(".webm"@),
            r@[1].media_types@.len() == 12,
            r@[1].media_types@[0].extension@ == upper_of(".doc"@),
            r@[1].media_types@[1].extension@ == upper_of(".docx"@),
            r@[1].media_types@[2].extension@ == upper_of(".odt"@),
            r@[1].media_types@[3].extension@ == upper_of(".odp"@),
            r@[1].media_types@[4].extension@ == upper_of(".ods"@),
            r@[1].media_types@[5].extension@ == upper_of(".pdf"@),
            r@[1].media_types@[6].extension@ == upper_of(".ppt"@),
            r@[1].media_types@[7].extension@ == upper_of(".ppsx"@),
            r@[1].media_types@[8].extension@ == upper_of(".pptm"@),
            r@[1].media_types@[9].extension@ == upper_of(".pptx"@),
            r@[1].media_types@[10].extension@ == upper_of(".sdw"@),
            r@[1].media_types@[11].extension@ == upper_of(".txt"@),
            r@[2].media_types@.len() == 7,
            r@[2].media_types@[0].extension@ == upper_of(".bmp"@),
            r@[2].media_types@[1].extension@ == upper_of(".ico"@),
            r@[2].media_types@[2].extension@ == upper_of(".jpg"@),
            r@[2].media_types@[3].extension@ == upper_of(".jpeg"@),
            r@[2].media_types@[4].extension@ == upper_of(".png"@),
            r@[2].media_types@[5].extension@ == upper_of(".tif"@),
            r@[2].media_types@[6].extension@ == upper_of(".tiff"@),
            r@[3].media_types@.len() == 3,
            r@[3].media_types@[0].extension@ == upper_of(".m4v"@),
            r@[3].media_types@[1].extension@ == upper_of(".mp4"@),
            r@[3].media_types@[2].extension@ == upper_of(".vob"@),
            r@[4].media_types@.len() == 22,
            r@[4].media_types@[0].extension@ == upper_of(".bat"@),
            r@[4].media_types@[1].extension@ == upper_of(".css"@),
            r@[4].media_types@[2].extension@ == upper_of(".classpath"@),
            r@[4].media_types@[3].extension@ == upper_of(".conf"@),
            r@[4].media_types@[4].extension@ == upper_of(".gz"@),
            r@[4].media_types@[5].extension@ == upper_of(".htm"@),
            r@[4].media_types@[6].extension@ == upper_of(".html"@),
            r@[4].media_types@[7].extension@ == upper_of(".java"@),
            r@[4].media_types@[8].extension@ == upper_of(".js"@),
            r@[4].media_types@[9].extension@ == upper_of(".json"@),
            r@[4].media_types@[10].extension@ == upper_of(".project"@),
            r@[4].media_types@[11].extension@ == upper_of(".properties"@),
            r@[4].media_types@[12].extension@ == upper_of(".prefs"@),
            r@[4].media_types@[13].extension@ == upper_of(".rar"@),
            r@[4].media_types@[14].extension@ == upper_of(".rs"@),
            r@[4].media_types@[15].extension@ == upper_of(".sh"@),
            r@[4].media_types@[16].extension@ == upper_of(".svg"@),
            r@[4].media_types@[17].extension@ == upper_of(".tar"@),
            r@[4].media_types@[18].extension@ == upper_of(".toml"@),
            r@[4].media_types@[19].extension@ == upper_of(".xlsx"@),
            r@[4].media_types@[20].extension@ == upper_of(".xml"@),
            r@[4].media_types@[21].extension@ == upper_of(".zip"@),
            r@[5].media_types@.len() == 24,
            r@[5].media_types@[0].extension@ == upper_of("._"@),
            r@[5].media_types@[1].extension@ == upper_of(".a"@),
            r@[5].media_types@[2].extension@ == upper_of(".bak"@),
            r@[5].media_types@[3].extension@ == upper_of(".bin"@),
            r@[5].media_types@[4].extension@ == upper_of(".ds_store"@),
            r@[5].media_types@[5].extension@ == upper_of(".ds_sstore"@),
            r@[5].media_types@[6].extension@ == upper_of(".gitignore"@),
            r@[5].media_types@[7].extension@ == upper_of(".idx"@),
            r@[5].media_types@[8].extension@ == upper_of(".lock"@),
            r@[5].media_types@[9].extension@ == upper_of(".log"@),
            r@[5].media_types@[10].extension@ == upper_of(".m3u"@),
            r@[5].media_types@[11].extension@ == upper_of(".mf"@),
            r@[5].media_types@[12].extension@ == upper_of(".nfo"@),
            r@[5].media_types@[13].extension@ == upper_of(".o"@),
            r@[5].media_types@[14].extension@ == upper_of(".rlib"@),
            r@[5].media_types@[15].extension@ == upper_of(".rmeta"@),
            r@[5].media_types@[16].extension@ == upper_of(".rtf"@),
            r@[5].media_types@[17].extension@ == upper_of(".sfv"@),
            r@[5].media_types@[18].extension@ == upper_of(".so"@),
            r@[5].media_types@[19].extension@ == upper_of(".timestamp"@),
            r@[5].media_types@[20].extension@ == upper_of(".url"@),
            r@[5].media_types@[21].extension@ == upper_of(".wpl"@),
            r@[5].media_types@[22].extension@ == upper_of(".zotero-ft-cache"@),
            r@[5].media_types@[23].extension@ == upper_of(".zotero-ft-info"@),
    {
        let groups: Vec<MediaGroup> = vec![
            MediaGroup::new("Audio", audio_types(), true),
            MediaGroup::new("Document", document_types(), true),
            MediaGroup::new("Image", image_types(), true),
            MediaGroup::new("Video", video_types(), true),
            MediaGroup::new("Development", development_types(), false),
            MediaGroup::new("IGNORED", ignore_types(), false),
        ];
        groups
    }
}

fn audio_types() -> (r: Vec<MediaType>)
    ensures
        r@.len() == 45,
        forall|i: int| 0 <= i < r@.len() ==> (#[trigger] r@[i]).selected,
        r@[0].extension@ == upper_of(".3gp"@),
        r@[1].extension@ == upper_of(".8svx"@),
        r@[2].extension@ == upper_of(".aa"@),
        r@[3].extension@ == upper_of(".aac"@),
        r@[4].extension@ == upper_of(".aax"@),
        r@[5].extension@ == upper_of(".act"@),
        r@[6].extension@ == upper_of(".aiff"@),
        r@[7].extension@ == upper_of(".aif"@),
        r@[8].extension@ == upper_of(".alac"@),
        r@[9].extension@ == upper_of(".amr"@),
        r@[10].extension@ == upper_of(".ape"@),
        r@[11].extension@ == upper_of(".au"@),
        r@[12].extension@ == upper_of(".awb"@),
        r@[13].extension@ == upper_of(".cda"@),
        r@[14].extension@ == upper_of(".dss"@),
        r@[15].extension@ == upper_of(".dvf"@),
        r@[16].extension@ == upper_of(".flac"@),
        r@[17].extension@ == upper_of(".gsm"@),
        r@[18].extension@ == upper_of(".iklax"@),
        r@[19].extension@ == upper_of(".ivs"@),
        r@[20].extension@ == upper_of(".m4a"@),
        r@[21].extension@ == upper_of(".m4b"@),
        r@[22].extension@ == upper_of(".m4p"@),
        r@[23].extension@ == upper_of(".mmf"@),
        r@[24].extension@ == upper_of(".movpkg"@),
        r@[25].extension@ == upper_of(".mp3"@),
        r@[26].extension@ == upper_of(".mpc"@),
        r@[27].extension@ == upper_of(".msv"@),
        r@[28].extension@ == upper_of(".nmf"@),
        r@[29].extension@ == upper_of(".ogg"@),
        r@[30].extension@ == upper_of(".oga"@),
        r@[31].extension@ == upper_of(".mogg"@),
        r@[32].extension@ == upper_of(".opus"@),
        r@[33].extension@ == upper_of(".ra"@),
        r@[34].extension@ == upper_of(".rm"@),
        r@[35].extension@ == upper_of(".raw"@),
        r@[36].extension@ == upper_of(".rf64"@),
        r@[37].extension@ == upper_of(".sln"@),
        r@[38].extension@ == upper_of(".tta"@),
        r@[39].extension@ == upper_of(".voc"@),
        r@[40].extension@ == upper_of(".vox"@),
        r@[41].extension@ == upper_of(".wav"@),
        r@[42].extension@ == upper_of(".wma"@),
        r@[43].extension@ == upper_of(".wv"@),
        r@[44].extension@ == upper_of(".webm"@),
{
    let r: Vec<MediaType> = vec![
        MediaType::new(".3gp", "MM container format can contain proprietary formats as AMR, AMR-WB or AMR-WB+, but also some open formats"),
        MediaType::new(".8svx", "The IFF-8SVX format for 8-bit sound samples, created by Electronic Arts in 1984 at the birth of the Amiga"),
        MediaType::new(".aa", "A low-bitrate audiobook container format with DRM, containing audio encoded as either MP3 or the ACELP speech codec"),
        MediaType::new(".aac", "The Advanced Audio Coding format is based on the MPEG-2 and MPEG-4 standards. AAC files are usually ADTS or ADIF containers"),
        MediaType::new(".aax", "An Audiobook format, which is a variable-bitrate (allowing high quality) M4B file encrypted with DRM. MPB contains AAC or ALAC encoded audio in an MPEG-4 container. (More details below.)"),
        MediaType::new(".act", "ACT is a lossy ADPCM 8 kbit/s compressed audio format recorded by most Chinese MP3 and MP4 players with a recording function, and voice recorders"),
        MediaType::new(".aiff", "A standard uncompressed CD-quality, audio file format used by Apple. Established 3 years prior to Microsoft's uncompressed version wav"),
        MediaType::new(".aif", "A standard uncompressed CD-quality, audio file format used by Apple. Established 3 years prior to Microsoft's uncompressed version wav"),
        MediaType::new(".alac", "An audio coding format developed by Apple Inc. for lossless data compression of digital music"),
        MediaType::new(".amr", "AMR-NB audio, used primarily for speech."),
        MediaType::new(".ape", "Monkeys Audio lossless audio compression format."),
        MediaType::new(".au", "The standard audio file format used by Sun, Unix and Java. The audio in au files can be PCM or compressed with the u-law, a-law or G.729 codecs"),
        MediaType::new(".awb", "AMR-WB audio, used primarily for speech, same as the ITU-T's G.722.2 specification."),
        MediaType::new(".cda", "Format for cda files for Radio."),
        MediaType::new(".dss", "DSS files are an Olympus proprietary format. DSS files use a high compression rate, which reduces the file size and allows files to be copied and transferred quickly.[6] It allows additional data to be held in the file header"),
        MediaType::new(".dvf", "A Sony proprietary format for compressed voice files; commonly used by Sony dictation recorders"),
        MediaType::new(".flac", "A file format for the Free Lossless Audio Codec, an open-source lossless compression codec"),
        MediaType::new(".gsm", "Designed for telephony use in Europe, GSM is used to store telephone voice messages and conversations. With a bitrate of 13kbps, GSM files can compress and encode audio at telephone quality. [7] Note that WAV files can also be encoded with the GSM codec"),
        MediaType::new(".iklax", "An iKlax Media proprietary format, the iKlax format is a multi-track digital audio format allowing various actions on musical data, for instance on mixing and volumes arrangements"),
        MediaType::new(".ivs", "A proprietary version with DRM developed by 3D Solar UK Ltd for use in music downloaded from their Tronme Music Store and interactive music and video player"),
        MediaType::new(".m4a", "An audio-only MPEG-4 file, used by Apple for unprotected music downloaded from their iTunes Music Store. Audio within the m4a file is typically encoded with AAC, although lossless ALAC may also be used"),
        MediaType::new(".m4b", "An Audiobook / podcast extension with AAC or ALAC encoded audio in an MPEG-4 container. Both M4A and M4B formats can contain metadata including chapter markers, images, and hyperlinks, but M4B allows 'bookmarks' (remembering the last listening spot), whereas M4A does not.[8]"),
        MediaType::new(".m4p", "A version of AAC with proprietary DRM developed by Apple for use in music downloaded from their iTunes Music Store and their music streaming service known as Apple Music"),
        MediaType::new(".mmf", "A Samsung audio format that is used in ringtones. Developed by Yamaha (SMAF stands for 'Synthetic music Mobile Application Format', and is a multimedia data format invented by the Yamaha Corporation, .mmf file format)"),
        MediaType::new(".movpkg", "An Apple audio format primarily used for Lossless and Hi-Res audio files through Apple Music. Also used for storing Apple TV videos"),
        MediaType::new(".mp3", "MPEG Layer III Audio"),
        MediaType::new(".mpc", "Musepack or MPC (formerly known as MPEGplus, MPEG+ or MP+) is an open source lossy audio codec, specifically optimized for transparent compression of stereo audio at bitrates of 160-180 kbit/s"),
        MediaType::new(".msv", "A Sony proprietary format for Memory Stick compressed voice files."),
        MediaType::new(".nmf", "NICE Media Player audio file"),
        MediaType::new(".ogg", "A free, open source container format supporting a variety of formats, the most popular of which is the audio format Vorbis. Vorbis offers compression similar to MP3 but is less popular. Mogg, the 'Multi-Track-Single-Logical-Stream Ogg-Vorbis', is the multi-channel or multi-track Ogg file format"),
        MediaType::new(".oga", "A free, open source container format supporting a variety of formats, the most popular of which is the audio format Vorbis. Vorbis offers compression similar to MP3 but is less popular. Mogg, the 'Multi-Track-Single-Logical-Stream Ogg-Vorbis', is the multi-channel or multi-track Ogg file format"),
        MediaType::new(".mogg", "A free, open source container format supporting a variety of formats, the most popular of which is the audio format Vorbis. Vorbis offers compression similar to MP3 but is less popular. Mogg, the 'Multi-Track-Single-Logical-Stream Ogg-Vorbis', is the multi-channel or multi-track Ogg file format"),
        MediaType::new(".opus", "A lossy audio compression format developed by the Internet Engineering Task Force (IETF) and made especially suitable for interactive real-time applications over the Internet. As an open format standardised through RFC 6716, a reference implementation is provided under the 3-clause BSD license"),
        MediaType::new(".ra", "A RealAudio format designed for streaming audio over the Internet. The .ra format allows files to be stored in a self-contained fashion on a computer, with all of the audio data contained inside the file itself"),
        MediaType::new(".rm", "A RealAudio format designed for streaming audio over the Internet. The .ra format allows files to be stored in a self-contained fashion on a computer, with all of the audio data contained inside the file itself"),
        MediaType::new(".raw", "A raw file can contain audio in any format but is usually used with PCM audio data. It is rarely used except for technical tests"),
        MediaType::new(".rf64", "One successor to the Wav format, overcoming the 4GiB size limitation."),
        MediaType::new(".sln", "Signed Linear PCM format used by Asterisk. Prior to v.10 the standard formats were 16-bit Signed Linear PCM sampled at 8 kHz and at 16 kHz. With v.10 many more sampling rates were added.[9]"),
        MediaType::new(".tta", "The True Audio, real-time lossless audio codec."),
        MediaType::new(".voc", "The file format consists of a 26-byte header and a series of subsequent data blocks containing the audio information"),
        MediaType::new(".vox", "The vox format most commonly uses the Dialogic ADPCM (Adaptive Differential Pulse Code Modulation) codec. Similar to other ADPCM formats, it compresses to 4-bits. Vox format files are similar to wave files except that the vox files contain no information about the file itself so the codec sample rate and number of channels must first be specified in order to play a vox file"),
        MediaType::new(".wav", "Standard audio file container format used mainly in Windows PCs. Commonly used for storing uncompressed (PCM), CD-quality sound files, which means that they can be large in size - around 10 MB per minute. Wave files can also contain data encoded with a variety of (lossy) codecs to reduce the file size (for example the GSM or MP3 formats). Wav files use a RIFF structure"),
        MediaType::new(".wma", "Windows Media Audio format, created by Microsoft. Designed with DRM abilities for copy protection"),
        MediaType::new(".wv", "Format for wavpack files"),
        MediaType::new(".webm", "Royalty-free format created for HTML video"),
    ];
    r
}

fn image_types() -> (r: Vec<MediaType>)
    ensures
        r@.len() == 7,
        forall|i: int| 0 <= i < r@.len() ==> (#[trigger] r@[i]).selected,
        r@[0].extension@ == upper_of(".bmp"@),
        r@[1].extension@ == upper_of(".ico"@),
        r@[2].extension@ == upper_of(".jpg"@),
        r@[3].extension@ == upper_of(".jpeg"@),
        r@[4].extension@ == upper_of(".png"@),
        r@[5].extension@ == upper_of(".tif"@),
        r@[6].extension@ == upper_of(".tiff"@),
{
    let r: Vec<MediaType> = vec![
        MediaType::new(".bmp", "Bitmap Image"),
        MediaType::new(".ico", "Microsoft Icon file"),
        MediaType::new(".jpg", "JPEG Image"),
        MediaType::new(".jpeg", "JPEG Image"),
        MediaType::new(".png", "Portable Network Graphic"),
        MediaType::new(".tif", "Tagged Image Format"),
        MediaType::new(".tiff", "Tagged Image Format"),
    ];
    r
}

fn video_types() -> (r: Vec<MediaType>)
    ensures
        r@.len() == 3,
        forall|i: int| 0 <= i < r@.len() ==> (#[trigger] r@[i]).selected,
        r@[0].extension@ == upper_of(".m4v"@),
        r@[1].extension@ == upper_of(".mp4"@),
        r@[2].extension@ == upper_of(".vob"@),
{
    let r: Vec<MediaType> = vec![
        MediaType::new(".m4v", "Apple iTunes Video file"),
        MediaType::new(".mp4", "MPEG4 Video"),
        MediaType::new(".vob", "Multimedia container format can contain proprietary formats as AMR, AMR-WB or AMR-WB+, but also some open formats"),
    ];
    r
}

fn document_types() -> (r: Vec<MediaType>)
    ensures
        r@.len() == 12,
        forall|i: int| 0 <= i < r@.len() ==> (#[trigger] r@[i]).selected,
        r@[0].extension@ == upper_of(".doc"@),
        r@[1].extension@ == upper_of(".docx"@),
        r@[2].extension@ == upper_of(".odt"@),
        r@[3].extension@ == upper_of(".odp"@),
        r@[4].extension@ == upper_of(".ods"@),
        r@[5].extension@ == upper_of(".pdf"@),
        r@[6].extension@ == upper_of(".ppt"@),
        r@[7].extension@ == upper_of(".ppsx"@),
        r@[8].extension@ == upper_of(".pptm"@),
        r@[9].extension@ == upper_of(".pptx"@),
        r@[10].extension@ == upper_of(".sdw"@),
        r@[11].extension@ == upper_of(".txt"@),
{
    let r: Vec<MediaType> = vec![
        MediaType::new(".doc", "Microsoft Word Document (Old format)"),
        MediaType::new(".docx", "Microsoft Word Document"),
        MediaType::new(".odt", "OpenOffice Document"),
        MediaType::new(".odp", "OpenOffice Presentation Document"),
        MediaType::new(".ods", "OpenOffice Document"),
        MediaType::new(".pdf", "Adobes multi-platform document format"),
        MediaType::new(".ppt", "Microsoft Powerpoint"),
        MediaType::new(".ppsx", "OpenOffice file"),
        MediaType::new(".pptm", "Microsoft Powerpoint Macro"),
        MediaType::new(".pptx", "Microsoft Powerpoint OpenXML"),
        MediaType::new(".sdw", "StarOffice Writer Datei"),
        MediaType::new(".txt", "Plain text file"),
    ];
    r
}

fn development_types() -> (r: Vec<MediaType>)
    ensures
        r@.len() == 22,
        forall|i: int| 0 <= i < r@.len() ==> (#[trigger] r@[i]).selected,
        r@[0].extension@ == upper_of(".bat"@),
        r@[1].extension@ == upper_of(".css"@),
        r@[2].extension@ == upper_of(".classpath"@),
        r@[3].extension@ == upper_of(".conf"@),
        r@[4].extension@ == upper_of(".gz"@),
        r@[5].extension@ == upper_of(".htm"@),
        r@[6].extension@ == upper_of(".html"@),
        r@[7].extension@ == upper_of(".java"@),
        r@[8].extension@ == upper_of(".js"@),
        r@[9].extension@ == upper_of(".json"@),
        r@[10].extension@ == upper_of(".project"@),
        r@[11].extension@ == upper_of(".properties"@),
        r@[12].extension@ == upper_of(".prefs"@),
        r@[13].extension@ == upper_of(".rar"@),
        r@[14].extension@ == upper_of(".rs"@),
        r@[15].extension@ == upper_of(".sh"@),
        r@[16].extension@ == upper_of(".svg"@),
        r@[17].extension@ == upper_of(".tar"@),
        r@[18].extension@ == upper_of(".toml"@),
        r@[19].extension@ == upper_of(".xlsx"@),
        r@[20].extension@ == upper_of(".xml"@),
        r@[21].extension@ == upper_of(".zip"@),
{
    let r: Vec<MediaType> = vec![
        MediaType::new(".bat", "Windows Batch file"),
        MediaType::new(".css", "Cascading Style Sheet"),
        MediaType::new(".classpath", "Java Classpath"),
        MediaType::new(".conf", "Config File"),
        MediaType::new(".gz", "tar compressed Archive"),
        MediaType::new(".htm", "HTML File"),
        MediaType::new(".html", "HTML File"),
        MediaType::new(".java", "Java Source file"),
        MediaType::new(".js", "JavaScript source file"),
        MediaType::new(".json", "JSON file"),
        MediaType::new(".project", "Project configuration file"),
        MediaType::new(".properties", "Properties file"),
        MediaType::new(".prefs", "Preferences file"),
        MediaType::new(".rar", "Archive file"),
        MediaType::new(".rs", "Rust source file"),
        MediaType::new(".sh", "Unix Shell-Script"),
        MediaType::new(".svg", "Scaleable Vector Graphic"),
        MediaType::new(".tar", "Tar archive file"),
        MediaType::new(".toml", "Rust Toml configuration file"),
        MediaType::new(".xlsx", "OpenOffice File"),
        MediaType::new(".xml", "XML File"),
        MediaType::new(".zip", "ZIP Archive File"),
    ];
    r
}

fn ignore_types() -> (r: Vec<MediaType>)
    ensures
        r@.len() == 24,
        forall|i: int| 0 <= i < r@.len() ==> (#[trigger] r@[i]).selected,
        r@[0].extension@ == upper_of("._"@),
        r@[1].extension@ == upper_of(".a"@),
        r@[2].extension@ == upper_of(".bak"@),
        r@[3].extension@ == upper_of(".bin"@),
        r@[4].extension@ == upper_of(".ds_store"@),
        r@[5].extension@ == upper_of(".ds_sstore"@),
        r@[6].extension@ == upper_of(".gitignore"@),
        r@[7].extension@ == upper_of(".idx"@),
        r@[8].extension@ == upper_of(".lock"@),
        r@[9].extension@ == upper_of(".log"@),
        r@[10].extension@ == upper_of(".m3u"@),
        r@[11].extension@ == upper_of(".mf"@),
        r@[12].extension@ == upper_of(".nfo"@),
        r@[13].extension@ == upper_of(".o"@),
        r@[14].extension@ == upper_of(".rlib"@),
        r@[15].extension@ == upper_of(".rmeta"@),
        r@[16].extension@ == upper_of(".rtf"@),
        r@[17].extension@ == upper_of(".sfv"@),
        r@[18].extension@ == upper_of(".so"@),
        r@[19].extension@ == upper_of(".timestamp"@),
        r@[20].extension@ == upper_of(".url"@),
        r@[21].extension@ == upper_of(".wpl"@),
        r@[22].extension@ == upper_of(".zotero-ft-cache"@),
        r@[23].extension@ == upper_of(".zotero-ft-info"@),
{
    let r: Vec<MediaType> = vec![
        MediaType::new("._", "Files with this extension will be ignored"),
        MediaType::new(".a", "Binary Archive file"),
        MediaType::new(".bak", "Files with this extension will be ignored"),
        MediaType::new(".bin", "Files with this extension will be ignored"),
        MediaType::new(".ds_store", "Files with this extension will be ignored"),
        MediaType::new(".ds_sstore", "Files with this extension will be ignored"),
        MediaType::new(".gitignore", "Files with this extension will be ignored"),
        MediaType::new(".idx", "Files with this extension will be ignored"),
        MediaType::new(".lock", "Files with this extension will be ignored"),
        MediaType::new(".log", "Files with this extension will be ignored"),
        MediaType::new(".m3u", "Files with this extension will be ignored"),
        MediaType::new(".mf", "Files with this extension will be ignored"),
        MediaType::new(".nfo", "Files with this extension will be ignored"),
        MediaType::new(".o", "Files with this extension will be ignored"),
        MediaType::new(".rlib", "Files with this extension will be ignored"),
        MediaType::new(".rmeta", "Files with this extension will be ignored"),
        MediaType::new(".rtf", "Files with this extension will be ignored"),
        MediaType::new(".sfv", "Files with this extension will be ignored"),
        MediaType::new(".so", "Binary Shared Object file"),
        MediaType::new(".timestamp", "Files with this extension will be ignored"),
        MediaType::new(".url", "Files with this extension will be ignored"),
        MediaType::new(".wpl", "Files with this extension will be ignored"),
        MediaType::new(".zotero-ft-cache", "Zotero file"),
        MediaType::new(".zotero-ft-info", "Zotero file"),
    ];
    r
}

} // verus!
