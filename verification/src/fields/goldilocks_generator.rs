//! 7 generates the multiplicative group of the Goldilocks field.

use vstd::arithmetic::div_mod::lemma_fundamental_div_mod;
use vstd::arithmetic::power::{lemma_pow1, lemma_pow_adds, lemma_pow_multiplies, pow};
use vstd::arithmetic::power2::{lemma2_to64, pow2};
use vstd::prelude::*;

use crate::fields::fermat::lemma_fermat;
use crate::fields::goldilocks_prime::{lemma_goldilocks_prime, lemma_omega, GOLDILOCKS, OMEGA_32};
use crate::fields::modular::{
    is_prime, lemma_both_divide, lemma_canonical, lemma_difference, lemma_inverse_exists,
    lemma_pow_of_one, lemma_pow_step, lemma_same, lemma_same_pow,
};
use crate::fields::proth::{lemma_odd_multiple, lemma_odd_power, lemma_prime_by_power};

verus! {

/// The powers of 7 by which its order is known, and the one that is the root of unity.
proof fn lemma_powers()
    ensures
        pow(7, 0xFFFF_FFFF) % (GOLDILOCKS as int) == OMEGA_32,
        pow(7, 6148914689804861440) % (GOLDILOCKS as int) == 18446744065119617025,
        pow(7, 3689348813882916864) % (GOLDILOCKS as int) == 1373043270956696022,
        pow(7, 1085102592318504960) % (GOLDILOCKS as int) == 16301593560560007290,
        pow(7, 71777214277877760) % (GOLDILOCKS as int) == 995085315851368103,
        pow(7, 281470681743360) % (GOLDILOCKS as int) == 8478886009461009681,
{
    let g = 7int;
    let p = GOLDILOCKS as int;
    lemma_pow1(g);
    lemma_canonical(g, p);
    lemma_pow_step(g, 1, 1, 7, 7, 0, 49, p);
    lemma_pow_step(g, 2, 2, 49, 49, 0, 2401, p);
    lemma_pow_step(g, 4, 4, 2401, 2401, 0, 5764801, p);
    lemma_pow_step(g, 8, 8, 5764801, 5764801, 0, 33232930569601, p);
    lemma_pow_step(g, 16, 16, 33232930569601, 33232930569601, 59871144, 3732854072722565977, p);
    lemma_pow_step(g, 32, 32, 3732854072722565977, 3732854072722565977, 755374470194167763, 11250886851934520606, p);
    lemma_pow_step(g, 64, 64, 11250886851934520606, 11250886851934520606, 6862048634637463057, 12159723539389677939, p);
    lemma_pow_step(g, 128, 128, 12159723539389677939, 12159723539389677939, 8015445760942885145, 1536671775522476176, p);
    lemma_pow_step(g, 256, 256, 1536671775522476176, 1536671775522476176, 128009590028552839, 18371408314118145657, p);
    lemma_pow_step(g, 512, 512, 18371408314118145657, 18371408314118145657, 18296380226993647159, 2431605942540367610, p);
    lemma_pow_step(g, 1024, 1024, 2431605942540367610, 2431605942540367610, 320528513733820776, 6358221588783459004, p);
    lemma_pow_step(g, 2048, 2048, 6358221588783459004, 6358221588783459004, 2191551073725880667, 10083885515493449909, p);
    lemma_pow_step(g, 4096, 4096, 10083885515493449909, 10083885515493449909, 5512341186441451559, 15094611910849701842, p);
    lemma_pow_step(g, 8192, 8192, 15094611910849701842, 15094611910849701842, 12351627359374782256, 18060412910171584788, p);
    lemma_pow_step(g, 16384, 16384, 18060412910171584788, 18060412910171584788, 17682172705301910413, 10529651373896570371, p);
    lemma_pow_step(g, 32768, 32768, 10529651373896570371, 10529651373896570371, 6010467627164328842, 11156834669773791359, p);
    lemma_pow_step(g, 65536, 65536, 11156834669773791359, 11156834669773791359, 6747801095969600701, 11840798296997857860, p);
    lemma_pow_step(g, 131072, 131072, 11840798296997857860, 11840798296997857860, 7600501410037550524, 1447330804268045396, p);
    lemma_pow_step(g, 262144, 262144, 1447330804268045396, 1447330804268045396, 113557517201986392, 15265864706138236984, p);
    lemma_pow_step(g, 524288, 524288, 15265864706138236984, 15265864706138236984, 12633482870970026938, 12990112920302977158, p);
    lemma_pow_step(g, 1048576, 1048576, 12990112920302977158, 12990112920302977158, 9147578187632842085, 16491641580159807679, p);
    lemma_pow_step(g, 2097152, 2097152, 16491641580159807679, 16491641580159807679, 14743753205716107851, 17642952523097762870, p);
    lemma_pow_step(g, 4194304, 4194304, 17642952523097762870, 17642952523097762870, 16874185089843886439, 4419967652436713981, p);
    lemma_pow_step(g, 8388608, 8388608, 4419967652436713981, 4419967652436713981, 1059054864916706342, 7206579306846404579, p);
    lemma_pow_step(g, 16777216, 16777216, 7206579306846404579, 7206579306846404579, 2815390353464961295, 17869454728573311546, p);
    lemma_pow_step(g, 33554432, 33554432, 17869454728573311546, 17869454728573311546, 17310231610247778778, 4919185416341570378, p);
    lemma_pow_step(g, 67108864, 67108864, 4919185416341570378, 4919185416341570378, 1311797088379918943, 14445320067108370181, p);
    lemma_pow_step(g, 134217728, 134217728, 14445320067108370181, 14445320067108370181, 11311875475476573771, 17666966662873528270, p);
    lemma_pow_step(g, 268435456, 268435456, 17666966662873528270, 17666966662873528270, 16920151864880832278, 5473358340599679662, p);
    lemma_pow_step(g, 536870912, 536870912, 5473358340599679662, 5473358340599679662, 1624007543655523727, 4120449531758749877, p);
    lemma_pow_step(g, 1073741824, 1073741824, 4120449531758749877, 4120449531758749877, 920384880924393333, 17380019310548783236, p);
    lemma_pow_step(g, 2147483648, 2147483648, 17380019310548783236, 17380019310548783236, 16374980327064014652, 12275445934081160404, p);
    lemma_pow_step(g, 4294967296, 4294967296, 12275445934081160404, 12275445934081160404, 8168735485976295571, 4756475762779100925, p);
    lemma_pow_step(g, 8589934592, 8589934592, 4756475762779100925, 4756475762779100925, 1226452841583930247, 8312008622371998338, p);
    lemma_pow_step(g, 17179869184, 17179869184, 8312008622371998338, 8312008622371998338, 3745348614281448719, 3688660304411827445, p);
    lemma_pow_step(g, 34359738368, 34359738368, 3688660304411827445, 3688660304411827445, 737594384686194371, 6534114114080170934, p);
    lemma_pow_step(g, 68719476736, 68719476736, 6534114114080170934, 6534114114080170934, 2314481465952090416, 12241777603010464820, p);
    lemma_pow_step(g, 137438953472, 137438953472, 12241777603010464820, 12241777603010464820, 8123987535016771731, 6822456961749002749, p);
    lemma_pow_step(g, 274877906944, 274877906944, 6822456961749002749, 6822456961749002749, 2523259325318681516, 14740284407083446365, p);
    lemma_pow_step(g, 549755813888, 549755813888, 14740284407083446365, 14740284407083446365, 11778554718605294693, 14198376421529404772, p);
    lemma_pow_step(g, 1099511627776, 1099511627776, 14198376421529404772, 14198376421529404772, 10928426840468428427, 16372603252271478917, p);
    lemma_pow_step(g, 2199023255552, 2199023255552, 16372603252271478917, 16372603252271478917, 14531677582102307586, 6094962593300533783, p);
    lemma_pow_step(g, 4398046511104, 4398046511104, 6094962593300533783, 6094962593300533783, 2013827961939718852, 12855798221536971597, p);
    lemma_pow_step(g, 8796093022208, 8796093022208, 12855798221536971597, 12855798221536971597, 8959388566944981114, 4570035464479216815, p);
    lemma_pow_step(g, 17592186044416, 17592186044416, 4570035464479216815, 4570035464479216815, 1132190269893009520, 13312966101283008305, p);
    lemma_pow_step(g, 35184372088832, 35184372088832, 13312966101283008305, 13312966101283008305, 9607932204565742440, 17717521521350689785, p);
    lemma_pow_step(g, 70368744177664, 70368744177664, 17717521521350689785, 17717521521350689785, 17017126040144977924, 2579852125121816621, p);
    lemma_pow_step(g, 140737488355328, 140737488355328, 2579852125121816621, 2579852125121816621, 360802804139883802, 5647278486080789199, p);
    lemma_pow_step(g, 281474976710656, 281474976710656, 5647278486080789199, 5647278486080789199, 1728855465189040783, 10087368686013698258, p);
    lemma_pow_step(g, 562949953421312, 562949953421312, 10087368686013698258, 10087368686013698258, 5516149984228569938, 13705325519725492466, p);
    lemma_pow_step(g, 1125899906842624, 1125899906842624, 13705325519725492466, 13705325519725492466, 10182607125399333305, 16094056529116650251, p);
    lemma_pow_step(g, 2251799813685248, 2251799813685248, 16094056529116650251, 16094056529116650251, 14041429457020831984, 839801632116640137, p);
    lemma_pow_step(g, 4503599627370496, 4503599627370496, 839801632116640137, 839801632116640137, 38232588832580607, 809314592928515922, p);
    lemma_pow_step(g, 9007199254740992, 9007199254740992, 809314592928515922, 809314592928515922, 35507085036922498, 17285123329644556226, p);
    lemma_pow_step(g, 18014398509481984, 18014398509481984, 17285123329644556226, 17285123329644556226, 16196651690766601707, 13607546115301327129, p);
    lemma_pow_step(g, 36028797018963968, 36028797018963968, 13607546115301327129, 13607546115301327129, 10037831640276480664, 8495382904317313497, p);
    lemma_pow_step(g, 72057594037927936, 72057594037927936, 8495382904317313497, 8495382904317313497, 3912426519248459891, 7711545778172399998, p);
    lemma_pow_step(g, 144115188075855872, 144115188075855872, 7711545778172399998, 7711545778172399998, 3223763395050767236, 14653638268244293248, p);
    lemma_pow_step(g, 288230376151711744, 288230376151711744, 14653638268244293248, 14653638268244293248, 11640488624362864820, 4449853170003902284, p);
    lemma_pow_step(g, 576460752303423488, 576460752303423488, 4449853170003902284, 4449853170003902284, 1073424836387518537, 16684733269283358279, p);
    lemma_pow_step(g, 1152921504606846976, 1152921504606846976, 16684733269283358279, 16684733269283358279, 15091027620895781482, 10831206780798498119, p);
    lemma_pow_step(g, 2305843009213693952, 2305843009213693952, 10831206780798498119, 10831206780798498119, 6359661080945349191, 8050641074587903850, p);
    lemma_pow_step(g, 4611686018427387904, 4611686018427387904, 8050641074587903850, 8050641074587903850, 3513510106062784615, 1066724758865801085, p);
    lemma_pow_step(g, 1, 2, 7, 49, 0, 343, p);
    lemma_pow_step(g, 3, 4, 343, 2401, 0, 823543, p);
    lemma_pow_step(g, 7, 8, 823543, 5764801, 0, 4747561509943, p);
    lemma_pow_step(g, 15, 16, 4747561509943, 33232930569601, 8553020, 11074261478625843323, p);
    lemma_pow_step(g, 31, 32, 11074261478625843323, 3732854072722565977, 2240970108726347381, 12148266161370408270, p);
    lemma_pow_step(g, 63, 64, 12148266161370408270, 11250886851934520606, 7409370863196506497, 7007601668316978083, p);
    lemma_pow_step(g, 127, 128, 7007601668316978083, 12159723539389677939, 4619270405674605860, 8125271997680889877, p);
    lemma_pow_step(g, 255, 256, 8125271997680889877, 1536671775522476176, 676860702370854481, 2624486902016877951, p);
    lemma_pow_step(g, 511, 512, 2624486902016877951, 18371408314118145657, 2613768603856235308, 8253119735826302939, p);
    lemma_pow_step(g, 1023, 1024, 8253119735826302939, 2431605942540367610, 1087906620193560515, 3543566522599720475, p);
    lemma_pow_step(g, 2047, 2048, 3543566522599720475, 6358221588783459004, 1221396094644191381, 11981551684735969599, p);
    lemma_pow_step(g, 4095, 4096, 11981551684735969599, 10083885515493449909, 6549697606916464456, 10062120588441922115, p);
    lemma_pow_step(g, 8191, 8192, 10062120588441922115, 15094611910849701842, 8233637584560555397, 10485806445487905393, p);
    lemma_pow_step(g, 16383, 16384, 10485806445487905393, 18060412910171584788, 10266201633688094968, 4139485063330164956, p);
    lemma_pow_step(g, 32767, 32768, 4139485063330164956, 10529651373896570371, 2362874143008699887, 12134830135347446949, p);
    lemma_pow_step(g, 65535, 65536, 12134830135347446949, 11156834669773791359, 7339305682152109448, 4326791766630348883, p);
    lemma_pow_step(g, 131071, 131072, 4326791766630348883, 11840798296997857860, 2777328529576486912, 206761543466863628, p);
    lemma_pow_step(g, 262143, 262144, 206761543466863628, 1447330804268045396, 16222502457426627, 10086585273483141421, p);
    lemma_pow_step(g, 524287, 524288, 10086585273483141421, 15265864706138236984, 8347296712769248270, 1855730417186139594, p);
    lemma_pow_step(g, 1048575, 1048576, 1855730417186139594, 12990112920302977158, 1306796883947548869, 7626447102712710903, p);
    lemma_pow_step(g, 2097151, 2097152, 7626447102712710903, 16491641580159807679, 6818148052290817601, 7790920094560990216, p);
    lemma_pow_step(g, 4194303, 4194304, 7790920094560990216, 17642952523097762870, 7451441448005630311, 5901922255895126089, p);
    lemma_pow_step(g, 8388607, 8388608, 5901922255895126089, 4419967652436713981, 1414141452827162043, 8935258787870022506, p);
    lemma_pow_step(g, 16777215, 16777216, 8935258787870022506, 7206579306846404579, 3490732610572025004, 13093775858033092690, p);
    lemma_pow_step(g, 33554431, 33554432, 13093775858033092690, 17869454728573311546, 12684007217791574994, 11243737384857129666, p);
    lemma_pow_step(g, 67108863, 67108864, 11243737384857129666, 4919185416341570378, 2998362679106600065, 2063617152444052883, p);
    lemma_pow_step(g, 134217727, 134217728, 2063617152444052883, 14445320067108370181, 1615982210782367681, 13064848991504552222, p);
    lemma_pow_step(g, 268435455, 268435456, 13064848991504552222, 17666966662873528270, 12512574073767849336, 16593403251012455084, p);
    lemma_pow_step(g, 536870911, 536870912, 16593403251012455084, 5473358340599679662, 4923451083893371671, 5859133952941131217, p);
    lemma_pow_step(g, 1073741823, 1073741824, 5859133952941131217, 4120449531758749877, 1308754849205984726, 15659105665374529263, p);
    lemma_pow_step(g, 2147483647, 2147483648, 15659105665374529263, 17380019310548783236, 14753582411401132976, 1753635133440165772, p);
    lemma_pow_step(g, 4294967296, 17179869184, 12275445934081160404, 8312008622371998338, 5531253215396400128, 7781028390488215464, p);
    lemma_pow_step(g, 21474836480, 68719476736, 7781028390488215464, 6534114114080170934, 2756157251221681962, 8246665031048405574, p);
    lemma_pow_step(g, 90194313216, 274877906944, 8246665031048405574, 6822456961749002749, 3049997172431837543, 4733570987445959623, p);
    lemma_pow_step(g, 365072220160, 1099511627776, 4733570987445959623, 14198376421529404772, 3643408421826783852, 18361179848640336464, p);
    lemma_pow_step(g, 1464583847936, 4398046511104, 18361179848640336464, 6094962593300533783, 6066691440246015392, 14539522463670894480, p);
    lemma_pow_step(g, 5862630359040, 17592186044416, 14539522463670894480, 4570035464479216815, 3602052104454491996, 11310299617345086484, p);
    lemma_pow_step(g, 23454816403456, 70368744177664, 11310299617345086484, 17717521521350689785, 10863189521639821974, 144820208228696286, p);
    lemma_pow_step(g, 93823560581120, 281474976710656, 144820208228696286, 5647278486080789199, 44335197756425051, 18342191855603989543, p);
    lemma_pow_step(g, 375298537291776, 1125899906842624, 18342191855603989543, 13705325519725492466, 13627646655710786421, 16561037900262977897, p);
    lemma_pow_step(g, 1501198444134400, 4503599627370496, 16561037900262977897, 839801632116640137, 753953467660797875, 5709593261608934014, p);
    lemma_pow_step(g, 6004798071504896, 18014398509481984, 5709593261608934014, 17285123329644556226, 5350051115668237440, 7802345761617692924, p);
    lemma_pow_step(g, 24019196580986880, 72057594037927936, 7802345761617692924, 8495382904317313497, 3593258222014414664, 13093268643099712084, p);
    lemma_pow_step(g, 96076790618914816, 288230376151711744, 13093268643099712084, 14653638268244293248, 10400969500251643209, 6515397714927682743, p);
    lemma_pow_step(g, 384307166770626560, 1152921504606846976, 6515397714927682743, 16684733269283358279, 5893054763908618846, 11368723234197765731, p);
    lemma_pow_step(g, 1537228671377473536, 4611686018427387904, 11368723234197765731, 8050641074587903850, 4961607852878883325, 18446744065119617025, p);
    lemma_pow_step(g, 4294967296, 8589934592, 12275445934081160404, 4756475762779100925, 3165212291288392412, 1279992132519201448, p);
    lemma_pow_step(g, 12884901888, 68719476736, 1279992132519201448, 6534114114080170934, 453392459261821036, 3320735505586735876, p);
    lemma_pow_step(g, 81604378624, 137438953472, 3320735505586735876, 12241777603010464820, 2203733373480008149, 3080292546802250491, p);
    lemma_pow_step(g, 219043332096, 1099511627776, 3080292546802250491, 14198376421529404772, 2370887399063795248, 8400513760699636444, p);
    lemma_pow_step(g, 1318554959872, 2199023255552, 8400513760699636444, 16372603252271478917, 7455965041940705943, 8229424189471531445, p);
    lemma_pow_step(g, 3517578215424, 17592186044416, 8229424189471531445, 4570035464479216815, 2038774986881550171, 5375412128173778784, p);
    lemma_pow_step(g, 21109764259840, 35184372088832, 5375412128173778784, 13312966101283008305, 3879420626941789837, 13117622064007455443, p);
    lemma_pow_step(g, 56294136348672, 281474976710656, 13117622064007455443, 5647278486080789199, 4015823312333671151, 11287908954693536686, p);
    lemma_pow_step(g, 337769113059328, 562949953421312, 11287908954693536686, 10087368686013698258, 6172650246118081781, 3714462262458937287, p);
    lemma_pow_step(g, 900719066480640, 4503599627370496, 3714462262458937287, 839801632116640137, 169103634696205723, 659527408083819236, p);
    lemma_pow_step(g, 5404318693851136, 9007199254740992, 659527408083819236, 809314592928515922, 28935467082429937, 750328663734657815, p);
    lemma_pow_step(g, 14411517948592128, 72057594037927936, 750328663734657815, 8495382904317313497, 345553083976459071, 11749639948441203264, p);
    lemma_pow_step(g, 86469111986520064, 144115188075855872, 11749639948441203264, 7711545778172399998, 4911863361821066260, 7734626918933084012, p);
    lemma_pow_step(g, 230584300062375936, 1152921504606846976, 7734626918933084012, 16684733269283358279, 6995824661208785817, 14805977549627360091, p);
    lemma_pow_step(g, 1383505804669222912, 2305843009213693952, 14805977549627360091, 10831206780798498119, 8693491047982187367, 1373043270956696022, p);
    lemma_pow_step(g, 12884901888, 17179869184, 1279992132519201448, 8312008622371998338, 576757914677653306, 4549350404001778198, p);
    lemma_pow_step(g, 30064771072, 34359738368, 4549350404001778198, 3688660304411827445, 909700280057814134, 11274872323250451096, p);
    lemma_pow_step(g, 64424509440, 1099511627776, 11274872323250451096, 14198376421529404772, 8678218809118764528, 4720006745175264624, p);
    lemma_pow_step(g, 1163936137216, 2199023255552, 4720006745175264624, 16372603252271478917, 4189292023351215304, 10300021345978283624, p);
    lemma_pow_step(g, 3362959392768, 4398046511104, 10300021345978283624, 6094962593300533783, 3403215471397113049, 2922959029587764863, p);
    lemma_pow_step(g, 7761005903872, 8796093022208, 2922959029587764863, 12855798221536971597, 2037051706946153878, 17081009302073449373, p);
    lemma_pow_step(g, 16557098926080, 281474976710656, 17081009302073449373, 5647278486080789199, 5229173017697017724, 11460834259182216823, p);
    lemma_pow_step(g, 298032075636736, 562949953421312, 11460834259182216823, 10087368686013698258, 6267212261775398488, 4233525944401487686, p);
    lemma_pow_step(g, 860982029058048, 1125899906842624, 4233525944401487686, 13705325519725492466, 3145370854926542327, 331254610867718709, p);
    lemma_pow_step(g, 1986881935900672, 2251799813685248, 331254610867718709, 16094056529116650251, 289006580932349464, 15021829110735092015, p);
    lemma_pow_step(g, 4238681749585920, 72057594037927936, 15021829110735092015, 8495382904317313497, 6918087535594296864, 13781439335062557111, p);
    lemma_pow_step(g, 76296275787513856, 144115188075855872, 13781439335062557111, 7711545778172399998, 5761244364941928342, 13651804369712559996, p);
    lemma_pow_step(g, 220411463863369728, 288230376151711744, 13651804369712559996, 14653638268244293248, 10844656498178069258, 6511077653398803190, p);
    lemma_pow_step(g, 508641840015081472, 576460752303423488, 6511077653398803190, 4449853170003902284, 1570647883826672270, 16301593560560007290, p);
    lemma_pow_step(g, 64424509440, 68719476736, 11274872323250451096, 6534114114080170934, 3993729305539210620, 4304519570518954644, p);
    lemma_pow_step(g, 133143986176, 137438953472, 4304519570518954644, 12241777603010464820, 2856600117170241770, 16394889243316335910, p);
    lemma_pow_step(g, 270582939648, 274877906944, 16394889243316335910, 6822456961749002749, 6063586388701770193, 3679734199234472637, p);
    lemma_pow_step(g, 545460846592, 549755813888, 3679734199234472637, 14740284407083446365, 2940374108031354602, 17588058450869219263, p);
    lemma_pow_step(g, 1095216660480, 281474976710656, 17588058450869219263, 5647278486080789199, 5384400831266981835, 14827937047230331302, p);
    lemma_pow_step(g, 282570193371136, 562949953421312, 14827937047230331302, 10087368686013698258, 8108469835412016386, 11641541232969588010, p);
    lemma_pow_step(g, 845520146792448, 1125899906842624, 11641541232969588010, 13705325519725492466, 8649283122743410789, 10121517038197293391, p);
    lemma_pow_step(g, 1971420053635072, 2251799813685248, 10121517038197293391, 16094056529116650251, 8830624350844270998, 17072541970134968783, p);
    lemma_pow_step(g, 4223219867320320, 4503599627370496, 17072541970134968783, 839801632116640137, 777240067783636475, 12352856845441134796, p);
    lemma_pow_step(g, 8726819494690816, 9007199254740992, 12352856845441134796, 809314592928515922, 541957283721868952, 2236448923518320320, p);
    lemma_pow_step(g, 17734018749431808, 18014398509481984, 2236448923518320320, 17285123329644556226, 2095616186683061569, 5366285883533252671, p);
    lemma_pow_step(g, 35748417258913792, 36028797018963968, 5366285883533252671, 13607546115301327129, 3958529611149239936, 995085315851368103, p);
    lemma_pow_step(g, 1095216660480, 1099511627776, 17588058450869219263, 14198376421529404772, 13537449940737837062, 13474118253388618134, p);
    lemma_pow_step(g, 2194728288256, 2199023255552, 13474118253388618134, 16372603252271478917, 11959096494578407782, 3424231069583294856, p);
    lemma_pow_step(g, 4393751543808, 4398046511104, 3424231069583294856, 6094962593300533783, 1131395340087785797, 3212278696635431411, p);
    lemma_pow_step(g, 8791798054912, 8796093022208, 3212278696635431411, 12855798221536971597, 2238682696517588764, 8674491644268464123, p);
    lemma_pow_step(g, 17587891077120, 17592186044416, 8674491644268464123, 4570035464479216815, 2149036941232610463, 7614671795105477622, p);
    lemma_pow_step(g, 35180077121536, 35184372088832, 7614671795105477622, 13312966101283008305, 5495488369067626020, 565825823434018290, p);
    lemma_pow_step(g, 70364449210368, 70368744177664, 565825823434018290, 17717521521350689785, 543458030658650720, 1614949354278806530, p);
    lemma_pow_step(g, 140733193388032, 140737488355328, 1614949354278806530, 2579852125121816621, 225857230301591369, 8478886009461009681, p);
}

proof fn lemma_prime_3()
    ensures
        is_prime(3),
{
    assert(3int % 2 != 0);
}

proof fn lemma_prime_5()
    ensures
        is_prime(5),
{
    assert(5int % 2 != 0 && 5int % 3 != 0 && 5int % 4 != 0);
}

proof fn lemma_prime_17()
    ensures
        is_prime(17),
{
    lemma2_to64();
    lemma_pow1(3);
    lemma_pow_step(3, 1, 1, 3, 3, 0, 9, 17);
    lemma_pow_step(3, 2, 2, 9, 9, 4, 13, 17);
    lemma_pow_step(3, 4, 4, 13, 13, 9, 16, 17);
    lemma_prime_by_power(3, 4, 17);
}

proof fn lemma_prime_257()
    ensures
        is_prime(257),
{
    lemma2_to64();
    lemma_pow1(3);
    lemma_pow_step(3, 1, 1, 3, 3, 0, 9, 257);
    lemma_pow_step(3, 2, 2, 9, 9, 0, 81, 257);
    lemma_pow_step(3, 4, 4, 81, 81, 25, 136, 257);
    lemma_pow_step(3, 8, 8, 136, 136, 71, 249, 257);
    lemma_pow_step(3, 16, 16, 249, 249, 241, 64, 257);
    lemma_pow_step(3, 32, 32, 64, 64, 15, 241, 257);
    lemma_pow_step(3, 64, 64, 241, 241, 225, 256, 257);
    lemma_prime_by_power(3, 8, 257);
}

proof fn lemma_prime_65537()
    ensures
        is_prime(65537),
{
    lemma2_to64();
    lemma_pow1(3);
    lemma_pow_step(3, 1, 1, 3, 3, 0, 9, 65537);
    lemma_pow_step(3, 2, 2, 9, 9, 0, 81, 65537);
    lemma_pow_step(3, 4, 4, 81, 81, 0, 6561, 65537);
    lemma_pow_step(3, 8, 8, 6561, 6561, 656, 54449, 65537);
    lemma_pow_step(3, 16, 16, 54449, 54449, 45236, 61869, 65537);
    lemma_pow_step(3, 32, 32, 61869, 61869, 58406, 19139, 65537);
    lemma_pow_step(3, 64, 64, 19139, 19139, 5589, 15028, 65537);
    lemma_pow_step(3, 128, 128, 15028, 15028, 3446, 282, 65537);
    lemma_pow_step(3, 256, 256, 282, 282, 1, 13987, 65537);
    lemma_pow_step(3, 512, 512, 13987, 13987, 2985, 8224, 65537);
    lemma_pow_step(3, 1024, 1024, 8224, 8224, 1031, 65529, 65537);
    lemma_pow_step(3, 2048, 2048, 65529, 65529, 65521, 64, 65537);
    lemma_pow_step(3, 4096, 4096, 64, 64, 0, 4096, 65537);
    lemma_pow_step(3, 8192, 8192, 4096, 4096, 255, 65281, 65537);
    lemma_pow_step(3, 16384, 16384, 65281, 65281, 65025, 65536, 65537);
    lemma_prime_by_power(3, 16, 65537);
}

/// If a power of 7 is 1 and a prime factor of the order of the group does not divide its exponent,
/// then the power to the order divided by the factor is 1.
proof fn lemma_missing_factor(e: int, f: int, c: int)
    requires
        0 < e,
        pow(7, e as nat) % (GOLDILOCKS as int) == 1,
        is_prime(f),
        e % f != 0,
        c > 0,
        f * c == GOLDILOCKS - 1,
    ensures
        pow(7, c as nat) % (GOLDILOCKS as int) == 1,
{
    let p = GOLDILOCKS as int;
    let n = p - 1;
    lemma_canonical(1, p);
    let s = lemma_inverse_exists(e, f);
    let t = (e * s) / f;
    lemma_fundamental_div_mod(e * s, f);
    assert(e * s > 0 && t >= 0) by (nonlinear_arith)
        requires
            e > 0,
            s > 0,
            e * s == f * t + 1,
            f > 1,
    ;
    assert(s * c >= 0) by (nonlinear_arith)
        requires
            s > 0,
            c > 0,
    ;
    assert(e * (s * c) == n * t + c) by (nonlinear_arith)
        requires
            e * s == f * t + 1,
            f * c == n,
    ;
    assert(n * t >= 0) by (nonlinear_arith)
        requires
            n > 0,
            t >= 0,
    ;
    lemma_pow_of_one(7, e as nat, (s * c) as nat, p);
    lemma_goldilocks_prime();
    lemma_canonical(7, p);
    lemma_fermat(7, p as nat);
    lemma_pow_of_one(7, n as nat, t as nat, p);
    lemma_pow_adds(7, (n * t) as nat, c as nat);
    assert((e as nat) * ((s * c) as nat) == (n * t) as nat + c as nat);
    assert((n as nat) * (t as nat) == (n * t) as nat);
    lemma_same(pow(7, (n * t) as nat), 1, pow(7, c as nat), pow(7, c as nat), p);
}

/// 7 is a primitive root modulo the Goldilocks prime: no power of it below p - 1 is 1, and the
/// power to p - 1 is.
pub proof fn lemma_generator()
    ensures
        pow(7, (GOLDILOCKS - 1) as nat) % (GOLDILOCKS as int) == 1,
        forall|e: nat|
            0 < e < GOLDILOCKS - 1 ==> #[trigger] pow(7, e) % (GOLDILOCKS as int) != 1,
{
    lemma_goldilocks_prime();
    lemma_canonical(7, GOLDILOCKS as int);
    lemma_fermat(7, GOLDILOCKS as nat);
    assert forall|e: nat| 0 < e < GOLDILOCKS - 1 implies #[trigger] pow(7, e) % (
    GOLDILOCKS as int) != 1 by {
        lemma_no_smaller_power(e);
    }
}

proof fn lemma_no_smaller_power(e: nat)
    requires
        0 < e < GOLDILOCKS - 1,
    ensures
        pow(7, e) % (GOLDILOCKS as int) != 1,
{
    let p = GOLDILOCKS as int;
    if pow(7, e) % p == 1 {
        lemma_powers();
        if e % 3 != 0 {
            lemma_prime_3();
            lemma_missing_factor(e as int, 3, 6148914689804861440);
        } else if e % 5 != 0 {
            lemma_prime_5();
            lemma_missing_factor(e as int, 5, 3689348813882916864);
        } else if e % 17 != 0 {
            lemma_prime_17();
            lemma_missing_factor(e as int, 17, 1085102592318504960);
        } else if e % 257 != 0 {
            lemma_prime_257();
            lemma_missing_factor(e as int, 257, 71777214277877760);
        } else if e % 65537 != 0 {
            lemma_prime_65537();
            lemma_missing_factor(e as int, 65537, 281470681743360);
        }
        lemma_both_divide(e as int, 3, 5, 2, -1);
        lemma_both_divide(e as int, 15, 17, 8, -7);
        lemma_both_divide(e as int, 255, 257, 128, -127);
        lemma_both_divide(e as int, 65535, 65537, 32768, -32767);
        // the exponent is a multiple of 2^32 - 1 by a number below 2^32
        let n: nat = 0xFFFF_FFFF;
        lemma_fundamental_div_mod(e as int, n as int);
        let k = (e / n) as nat;
        assert(e == n * k);
        lemma2_to64();
        let (m, o) = lemma_odd_multiple(k, 32);
        let half = pow2(31);
        lemma_pow_of_one(7, e, m, p);
        assert(e * m == (n * half) * o) by (nonlinear_arith)
            requires
                e == n * k,
                k * m == half * o,
        ;
        lemma_pow_multiplies(7, n, half);
        lemma_pow_multiplies(7, n * half, o);
        let w = OMEGA_32 as int;
        lemma_omega();
        lemma_canonical(w, p);
        lemma_same_pow(pow(7, n), w, half, p);
        lemma_canonical(p - 1, p);
        lemma_difference(p - 1, -1, p);
        lemma_same_pow(pow(7, n * half), -1, o, p);
        lemma_odd_power(o);
        lemma_canonical(1, p);
        lemma_difference(1, -1, p);
        lemma_canonical(2, p);
    }
}

/// The root of unity of order 2^32 is a power of the generator.
pub proof fn lemma_omega_of_generator()
    ensures
        pow(7, 0xFFFF_FFFF) % (GOLDILOCKS as int) == OMEGA_32,
{
    lemma_powers();
}

} // verus!
